use vstd::prelude::*;
use crate::types::{
    Color, Move, Piece, INF, MATE_SCORE, DRAW_SCORE, MOVE_NONE, MAILBOX_SIZE, mv_from, mv_to,
    mv_captured, mv_is_promotion, sq, spec_mv_from, spec_mv_to, spec_mv_captured, spec_mv_is_promotion,
};
use crate::board::{
    Board, BoardView, UndoInfo, zobrist_side_key, lemma_unmake_make, lemma_scan_index, scan_square,
    inc16, dec16, file_brd, rank_brd, on_board, spec_file_brd, spec_rank_brd,
};
use crate::movegen::{legal_moves, legal_captures, all_ok, move_ok, spec_legal_moves, spec_legal_captures};
use crate::attack::{in_check, is_attacked, spec_in_check, attacked};
use crate::eval::{evaluate, evaluate_with_log, PhaseTable, EVAL_BOUND, spec_evaluate};
use crate::tt::{TranspositionTable, TTAccess, TTFlag, TTEntry, spec_store, slot_of};
use crate::ordering::{
    Killers, HistoryTable, CounterMoveTable, score_moves, pick_best, score_capture, see_value,
    spec_see_value, MAX_PLY, HIST_MAX,
};

verus! {

// ─── Time ───────────────────────────────────────────────────────

/// The search reads the time in milliseconds from a clock its caller supplies
/// (the system clock natively, the browser's in WebAssembly); nothing is
/// assumed of what the clock returns, only that it can always be asked.
pub open spec fn clock_ok<C: Fn() -> u64>(clock: &C) -> bool {
    clock.requires(())
}

/// The time limit has run out at clock reading `now` for a search started at
/// reading `start`; the difference wraps around like the clock's counter.
pub open spec fn spec_time_up(now: u64, start: u64, limit: u64) -> bool {
    now.wrapping_sub(start) >= limit
}

/// Whether the time limit has run out at clock reading `now`.
pub fn time_up(now: u64, start: u64, limit: u64) -> (r: bool)
    ensures
        r == spec_time_up(now, start, limit),
{
    now.wrapping_sub(start) >= limit
}

/// No reading of the clock is `limit` or more past `start`.
pub open spec fn clock_within<C: Fn() -> u64>(clock: &C, start: u64, limit: u64) -> bool {
    forall|t: u64| #[trigger] clock.ensures((), t) ==> !spec_time_up(t, start, limit)
}

/// No two readings of the clock are `limit` or more apart.
pub open spec fn clock_steady<C: Fn() -> u64>(clock: &C, limit: u64) -> bool {
    forall|s: u64, t: u64| clock.ensures((), s) && clock.ensures((), t) ==> !#[trigger] spec_time_up(t, s, limit)
}

// ─── Score bounds ───────────────────────────────────────────────

/// Bound on every score the search returns.
pub const SCORE_BOUND: i32 = 1_000_000;

/// Mate scores are moved by the ply when stored in and read from the table.
pub open spec fn spec_score_to_tt(score: int, ply: int) -> int {
    if score > MATE_SCORE - 200 {
        score + ply
    } else if score < -(MATE_SCORE - 200) {
        score - ply
    } else {
        score
    }
}

pub open spec fn spec_score_from_tt(score: int, ply: int) -> int {
    if score > MATE_SCORE - 200 {
        score - ply
    } else if score < -(MATE_SCORE - 200) {
        score + ply
    } else {
        score
    }
}

/// Mate score adjusted for storing at `ply`.
fn score_to_tt(score: i32, ply: usize) -> (r: i32)
    requires
        -SCORE_BOUND - 1000 <= score <= SCORE_BOUND + 1000,
        ply <= 2_000_000_000,
    ensures
        r == spec_score_to_tt(score as int, ply as int),
{
    if score > MATE_SCORE - 200 {
        score + ply as i32
    } else if score < -(MATE_SCORE - 200) {
        score - ply as i32
    } else {
        score
    }
}

/// Mate score adjusted when read at `ply`.
fn score_from_tt(score: i32, ply: usize) -> (r: i32)
    requires
        -SCORE_BOUND - 1000 <= score <= SCORE_BOUND + 1000,
        ply <= 2_000_000_000,
    ensures
        r == spec_score_from_tt(score as int, ply as int),
{
    if score > MATE_SCORE - 200 {
        score - ply as i32
    } else if score < -(MATE_SCORE - 200) {
        score + ply as i32
    } else {
        score
    }
}

/// Storing a mate score at a ply and reading it back at the same ply gives it back.
pub proof fn lemma_tt_score_roundtrip(score: int, ply: int)
    requires
        0 <= ply,
    ensures
        spec_score_from_tt(spec_score_to_tt(score, ply), ply) == score,
{
}

/// Every stored score is within SCORE_BOUND + MAX_PLY, exact ones within INF + MAX_PLY.
pub open spec fn tt_sane(tt: TranspositionTable) -> bool {
    forall|i: int| 0 <= i < tt.entries@.len() ==> {
        let e = #[trigger] tt.entries@[i];
        &&& -(SCORE_BOUND + 128) <= e.score <= SCORE_BOUND + 128
        &&& e.flag == TTFlag::Exact ==> -(INF + 128) <= e.score <= INF + 128
    }
}

proof fn lemma_store_sane(tt: TranspositionTable, hash: u64, depth: i8, score: i32, flag: TTFlag, mv: Move)
    requires
        tt.wf(),
        tt_sane(tt),
        -(SCORE_BOUND + 128) <= score <= SCORE_BOUND + 128,
        flag == TTFlag::Exact ==> -(INF + 128) <= score <= INF + 128,
    ensures
        forall|i: int| 0 <= i < tt.entries@.len() ==> {
            let e = #[trigger] spec_store(tt.entries@, tt.mask, hash, depth, score, flag, mv)[i];
            &&& -(SCORE_BOUND + 128) <= e.score <= SCORE_BOUND + 128
            &&& e.flag == TTFlag::Exact ==> -(INF + 128) <= e.score <= INF + 128
        },
{
    let h = hash as usize;
    let m = tt.mask;
    assert((h & m) <= m) by (bit_vector);
    assert forall|i: int| 0 <= i < tt.entries@.len() implies {
        let e = #[trigger] spec_store(tt.entries@, tt.mask, hash, depth, score, flag, mv)[i];
        &&& -(SCORE_BOUND + 128) <= e.score <= SCORE_BOUND + 128
        &&& e.flag == TTFlag::Exact ==> -(INF + 128) <= e.score <= INF + 128
    } by {
        assert(tt.entries@[i] == tt.entries@[i]);
    }
}

// ─── Search state ────────────────────────────────────────────────

/// Node counter, time control and the best root move found.
pub struct SearchInfo {
    pub nodes: u64,
    pub time_limit_ms: u64,
    pub start_time: u64,
    pub stopped: bool,
    pub best_move: Move,
    pub best_score: i32,
}

impl SearchInfo {
    /// Fresh search state started now, with the given time limit.
    pub fn new<C: Fn() -> u64>(time_limit_ms: u64, clock: &C) -> (info: Self)
        requires
            clock_ok(clock),
        ensures
            info.nodes == 0,
            info.time_limit_ms == time_limit_ms,
            !info.stopped,
            info.best_move == MOVE_NONE,
            info.best_score == 0,
            clock.ensures((), info.start_time),
    {
        SearchInfo {
            nodes: 0,
            time_limit_ms,
            start_time: clock(),
            stopped: false,
            best_move: MOVE_NONE,
            best_score: 0,
        }
    }

    /// Every 4096 nodes, reads the clock and stops the search once the time
    /// limit has elapsed: the flag is raised only on such a node, on a reading
    /// that is the limit or more past the start.
    fn check_time<C: Fn() -> u64>(&mut self, clock: &C)
        requires
            clock_ok(clock),
        ensures
            final(self).nodes == old(self).nodes,
            final(self).time_limit_ms == old(self).time_limit_ms,
            final(self).start_time == old(self).start_time,
            final(self).best_move == old(self).best_move,
            final(self).best_score == old(self).best_score,
            old(self).stopped ==> final(self).stopped,
            old(self).nodes % 4096 != 0 ==> final(self).stopped == old(self).stopped,
            !old(self).stopped && final(self).stopped ==> exists|t: u64| #[trigger] clock.ensures((), t)
                && spec_time_up(t, old(self).start_time, old(self).time_limit_ms),
            old(self).nodes % 4096 == 0 && (forall|t: u64| #[trigger] clock.ensures((), t)
                ==> spec_time_up(t, old(self).start_time, old(self).time_limit_ms)) ==> final(self).stopped,
    {
        let n = self.nodes;
        assert((n & 4095 == 0) == (n % 4096 == 0)) by (bit_vector);
        if n & 4095 == 0 {
            let now = clock();
            if time_up(now, self.start_time, self.time_limit_ms) {
                self.stopped = true;
            }
        }
    }
}

/// Counters of how often each pruning technique fired.
pub struct SearchStats {
    pub tt_hits: u64,
    pub tt_cutoffs: u64,
    pub null_move_tried: u64,
    pub null_move_cutoffs: u64,
    pub razor_prunes: u64,
    pub rfp_prunes: u64,
    pub futility_prunes: u64,
    pub lmp_prunes: u64,
    pub lmr_reductions: u64,
    pub lmr_re_searches: u64,
    pub qsearch_nodes: u64,
    pub qsearch_check_evasions: u64,
    pub repetition_draws: u64,
}

impl SearchStats {
    /// All counters zero.
    pub fn new() -> (s: Self)
        ensures
            s.tt_hits == 0 && s.tt_cutoffs == 0 && s.null_move_tried == 0 && s.null_move_cutoffs == 0
                && s.razor_prunes == 0 && s.rfp_prunes == 0 && s.futility_prunes == 0 && s.lmp_prunes == 0
                && s.lmr_reductions == 0 && s.lmr_re_searches == 0 && s.qsearch_nodes == 0
                && s.qsearch_check_evasions == 0 && s.repetition_draws == 0,
    {
        SearchStats {
            tt_hits: 0,
            tt_cutoffs: 0,
            null_move_tried: 0,
            null_move_cutoffs: 0,
            razor_prunes: 0,
            rfp_prunes: 0,
            futility_prunes: 0,
            lmp_prunes: 0,
            lmr_reductions: 0,
            lmr_re_searches: 0,
            qsearch_nodes: 0,
            qsearch_check_evasions: 0,
            repetition_draws: 0,
        }
    }
}

/// The reduction schedule for late moves: defined and between 0 and 255 everywhere.
pub open spec fn lmr_ok<L: Fn(i32, i32) -> i32>(lmr: &L) -> bool {
    &&& forall|d: i32, m: i32| #[trigger] lmr.requires((d, m))
    &&& forall|d: i32, m: i32, r: i32| #[trigger] lmr.ensures((d, m), r) ==> 0 <= r <= 255
}

// ─── Helpers ─────────────────────────────────────────────────────

/// The side to move has a piece other than pawns and royal pieces.
pub open spec fn spec_has_non_pawn_material(b: BoardView) -> bool {
    exists|k: int| 0 <= k < 110 && #[trigger] non_pawn_of(b.pieces[scan_square(k)], b.side)
}

pub open spec fn non_pawn_of(p: Piece, side: Color) -> bool {
    p != Piece::Empty && p.side() == Some(side) && !p.pawn() && !p.king_type()
}

fn has_non_pawn_material(board: &Board) -> (r: bool)
    ensures
        r == spec_has_non_pawn_material(board@),
{
    let side = board.side;
    let mut rank: i32 = 1;
    while rank <= 10
        invariant
            1 <= rank <= 11,
            side == board.side,
            forall|k: int| 0 <= k < (rank - 1) * 11 ==> !#[trigger] non_pawn_of(board@.pieces[scan_square(k)], side),
        decreases 11 - rank,
    {
        let mut file: i32 = 1;
        while file <= 11
            invariant
                1 <= rank <= 10,
                1 <= file <= 12,
                side == board.side,
                forall|k: int| 0 <= k < (rank - 1) * 11 + file - 1 ==> !#[trigger] non_pawn_of(board@.pieces[scan_square(k)], side),
            decreases 12 - file,
        {
            proof {
                lemma_scan_index(file as int, rank as int);
            }
            let s = sq(file, rank);
            let p = board.pieces[s];
            if p != Piece::Empty && p.color() == Some(side) && !p.is_pawn() && !p.is_king_type() {
                assert(non_pawn_of(board@.pieces[scan_square((rank - 1) * 11 + file - 1)], side));
                return true;
            }
            file += 1;
        }
        rank += 1;
    }
    false
}

/// The move chosen at the strongest level is kept as it is.
fn maybe_weaken(_board: &mut Board, best_move: Move) -> (m: Move)
    ensures
        m == best_move,
        final(_board)@ == old(_board)@,
        final(_board).zobrist == old(_board).zobrist,
{
    best_move
}


/// Every move of the scored list can be taken back exactly.
pub open spec fn scored_ok(pieces: Seq<Piece>, scored: Seq<(Move, i32)>) -> bool {
    forall|j: int| 0 <= j < scored.len() ==> #[trigger] move_ok(pieces, scored[j].0)
}

proof fn lemma_pick_keeps_ok(pieces: Seq<Piece>, old_s: Seq<(Move, i32)>, new_s: Seq<(Move, i32)>, start: int, b: int)
    requires
        scored_ok(pieces, old_s),
        0 <= start < old_s.len(),
        0 <= b < old_s.len(),
        new_s == old_s.update(start, old_s[b]).update(b, old_s[start]),
    ensures
        scored_ok(pieces, new_s),
        move_ok(pieces, old_s[b].0),
{
    assert forall|j: int| 0 <= j < new_s.len() implies #[trigger] move_ok(pieces, new_s[j].0) by {
        if j == b {
            assert(move_ok(pieces, old_s[start].0));
        } else if j == start {
            assert(move_ok(pieces, old_s[b].0));
        } else {
            assert(move_ok(pieces, old_s[j].0));
        }
    }
    assert(move_ok(pieces, old_s[b].0));
}

/// Moves among the legal moves of a position.
pub open spec fn legal_or_none(b: BoardView, m: Move) -> bool {
    m == MOVE_NONE || spec_legal_moves(b).contains(m)
}

/// A legal move that can be played and taken back exactly.
pub open spec fn playable(b: BoardView, m: Move) -> bool {
    spec_legal_moves(b).contains(m) && move_ok(b.pieces, m)
}

/// The position repeats one of the first `i` positions of the history,
/// looking back from the `i`-th until a record whose fifty-move counter was 0.
pub open spec fn repeats(hist: Seq<UndoInfo>, hash: u64, i: int) -> bool
    decreases i,
{
    if i <= 0 || i > hist.len() {
        false
    } else if hist[i - 1].hash == hash {
        true
    } else if hist[i - 1].half_moves == 0 {
        false
    } else {
        repeats(hist, hash, i - 1)
    }
}

/// The current hash occurs among the positions since the last irreversible move.
fn is_repetition(board: &Board) -> (r: bool)
    ensures
        r == repeats(board@.history, board@.hash, board@.history.len() as int),
{
    let ghost h = board@.history;
    let mut i = board.history.len();
    while i > 0
        invariant
            i <= h.len(),
            h == board@.history,
            repeats(h, board@.hash, h.len() as int) == repeats(h, board@.hash, i as int),
        decreases i,
    {
        i -= 1;
        if board.history[i].hash == board.hash {
            return true;
        }
        if board.history[i].half_moves == 0 {
            return false;
        }
    }
    false
}

// ─── Quiescence search ──────────────────────────────────────────

pub open spec fn min_score(a: int, b: int) -> int {
    if a < b { a } else { b }
}

pub open spec fn max_score(a: int, b: int) -> int {
    if a < b { b } else { a }
}

/// After the move the opponent is checkmated.
pub open spec fn mates(b: BoardView, m: Move) -> bool {
    spec_in_check(b.make(m)) && spec_legal_moves(b.make(m)).len() == 0
}

/// Quiescence passes over a capture by a piece worth over 300 more than its
/// victim, other than a promotion, when the opponent attacks the target square.
pub open spec fn qs_skips(b: BoardView, m: Move) -> bool {
    let attacker = b.pieces[spec_mv_from(m)];
    &&& spec_see_value(attacker) > spec_see_value(spec_mv_captured(m)) + 300
    &&& !spec_mv_is_promotion(m)
    &&& attacked(b, spec_mv_to(m), if attacker.white() { Color::Black } else { Color::White })
}

/// A move that checkmates into a position the search does not first score as
/// drawn (by the fifty-move rule or a repetition).
pub open spec fn mates_at_once(b: BoardView, m: Move) -> bool {
    let c = b.make(m);
    &&& mates(b, m)
    &&& c.half_moves < 100
    &&& !repeats(c.history, c.hash, c.history.len() as int)
}

/// The score of mating the opponent with the next move, from a node at `ply`.
pub open spec fn mate_below(ply: int) -> int {
    MATE_SCORE - (ply + 1)
}

/// Captures (and check evasions) searched until the position is quiet:
/// a checkmated side scores -(MATE_SCORE - ply); otherwise the result lies
/// between the stand-pat evaluation (or beta, if lower) and beta, a mating
/// evasion or capture that is searched lifts it to the mate score (or beta),
/// and from ply 20 on the evaluation is returned.
#[verifier::rlimit(40)]
fn quiescence<C: Fn() -> u64>(
    board: &mut Board,
    alpha_in: i32,
    beta: i32,
    ply: usize,
    info: &mut SearchInfo,
    stats: &mut SearchStats,
    phase: &PhaseTable,
    clock: &C,
) -> (r: i32)
    requires
        old(board)@.wf(),
        phase.wf(),
        clock_ok(clock),
        i32::MIN < alpha_in < beta,
        ply <= 1_000_000,
    ensures
        final(board)@ == old(board)@,
        final(board).zobrist == old(board).zobrist,
        min_score(-SCORE_BOUND as int, alpha_in as int) <= r <= max_score(SCORE_BOUND as int, beta as int),
        old(info).stopped ==> r == 0 && final(info).stopped,
        final(info).best_move == old(info).best_move,
        final(info).start_time == old(info).start_time,
        final(info).time_limit_ms == old(info).time_limit_ms,
        // The search stops only when the clock says the time is up.
        !old(info).stopped && clock_within(clock, old(info).start_time, old(info).time_limit_ms)
            ==> !final(info).stopped,
        !final(info).stopped && spec_in_check(old(board)@) && spec_legal_moves(old(board)@).len() == 0
            ==> r == -(MATE_SCORE - ply),
        !final(info).stopped && !spec_in_check(old(board)@) ==> min_score(
            spec_evaluate(old(board)@, *phase),
            beta as int,
        ) <= r <= beta,
        !final(info).stopped && ply <= 20 && !(spec_in_check(old(board)@) && spec_legal_moves(
            old(board)@,
        ).len() == 0) ==> alpha_in <= r <= beta,
        // A mating reply in check, or a mating capture that is not passed over
        // (when the stand-pat score is not 500 below alpha), is found: the
        // result is at least the mate score (or beta, if lower).
        !final(info).stopped && ply <= 20 && spec_in_check(old(board)@) && (exists|m: Move|
            #[trigger] spec_legal_moves(old(board)@).contains(m) && mates(old(board)@, m))
            ==> r >= min_score(beta as int, mate_below(ply as int)),
        !final(info).stopped && ply <= 20 && !spec_in_check(old(board)@) && spec_evaluate(old(board)@, *phase)
            + 500 >= alpha_in && (exists|m: Move| #[trigger] spec_legal_captures(old(board)@).contains(m)
            && !qs_skips(old(board)@, m) && mates(old(board)@, m)) ==> r >= min_score(beta as int, mate_below(ply as int)),
    decreases 21 - ply,
{
    let ghost b0 = board@;
    let mut alpha = alpha_in;
    info.check_time(clock);
    if info.stopped {
        return 0;
    }
    info.nodes = info.nodes.wrapping_add(1);
    stats.qsearch_nodes = stats.qsearch_nodes.wrapping_add(1);

    let in_chk = in_check(board);
    if in_chk {
        stats.qsearch_check_evasions = stats.qsearch_check_evasions.wrapping_add(1);
        let moves = legal_moves(board);
        if moves.len() == 0 {
            return -(MATE_SCORE - ply as i32);
        }
        if ply > 20 {
            return evaluate(board, phase);
        }
        let mut i: usize = 0;
        while i < moves.len()
            invariant
                board@ == b0,
                board.zobrist == old(board).zobrist,
                b0 == old(board)@,
                b0.wf(),
                phase.wf(),
                clock_ok(clock),
                all_ok(b0.pieces, moves@),
                moves@ == spec_legal_moves(b0),
                moves@.len() > 0,
                spec_in_check(b0),
                i32::MIN < alpha_in <= alpha < beta,
                ply <= 20,
                i <= moves@.len(),
                forall|j: int| 0 <= j < i && mates(b0, #[trigger] moves@[j]) ==> alpha >= mate_below(ply as int),
                info.best_move == old(info).best_move,
                info.start_time == old(info).start_time,
                info.time_limit_ms == old(info).time_limit_ms,
                !old(info).stopped,
                !info.stopped,
            decreases moves@.len() - i,
        {
            let mv = moves[i];
            assert(move_ok(b0.pieces, moves@[i as int]));
            board.make_move(mv);
            let score = -quiescence(board, -beta, -alpha, ply + 1, info, stats, phase, clock);
            board.unmake_move();
            proof {
                lemma_unmake_make(b0, mv);
            }
            if info.stopped {
                return 0;
            }
            if score >= beta {
                return beta;
            }
            if score > alpha {
                alpha = score;
            }
            i += 1;
        }
        proof {
            if exists|m: Move| #[trigger] spec_legal_moves(b0).contains(m) && mates(b0, m) {
                let m = choose|m: Move| #[trigger] spec_legal_moves(b0).contains(m) && mates(b0, m);
                let k = choose|k: int| 0 <= k < moves@.len() && moves@[k] == m;
                assert(mates(b0, moves@[k]));
            }
        }
        return alpha;
    }

    let stand_pat = evaluate(board, phase);
    if stand_pat >= beta {
        return beta;
    }
    if stand_pat > alpha {
        alpha = stand_pat;
    }
    if stand_pat + 500 < alpha {
        return alpha;
    }
    if ply > 20 {
        return stand_pat;
    }

    let captures = legal_captures(board);
    let mut scored: Vec<(Move, i32)> = Vec::new();
    let mut k: usize = 0;
    while k < captures.len()
        invariant
            board@ == b0,
            k <= captures@.len(),
            scored@.len() == k,
            all_ok(b0.pieces, captures@),
            scored_ok(b0.pieces, scored@),
            forall|j: int| 0 <= j < k ==> #[trigger] scored@[j].0 == captures@[j],
        decreases captures@.len() - k,
    {
        let mv = captures[k];
        let captured = mv_captured(mv);
        let from = mv_from(mv);
        let attacker = board.pieces[from];
        let ghost prev = scored@;
        scored.push((mv, score_capture(captured, attacker)));
        proof {
            assert forall|j: int| 0 <= j < scored@.len() implies #[trigger] move_ok(b0.pieces, scored@[j].0) by {
                if j < prev.len() {
                    assert(move_ok(b0.pieces, prev[j].0));
                } else {
                    assert(move_ok(b0.pieces, captures@[k as int]));
                }
            }
        }
        k += 1;
    }

    // Where each capture now stands in the list being picked from.
    let ghost mut pos: Seq<int> = Seq::new(captures@.len(), |q: int| q);
    let mut i: usize = 0;
    while i < scored.len()
        invariant
            board@ == b0,
            board.zobrist == old(board).zobrist,
            b0 == old(board)@,
            b0.wf(),
            phase.wf(),
            clock_ok(clock),
            scored_ok(b0.pieces, scored@),
            captures@ == spec_legal_captures(b0),
            pos.len() == captures@.len(),
            forall|q: int| 0 <= q < captures@.len() ==> 0 <= #[trigger] pos[q] < scored@.len() && scored@[pos[q]].0
                == captures@[q],
            forall|j: int| 0 <= j < i && !qs_skips(b0, scored@[j].0) && mates(b0, #[trigger] scored@[j].0) ==> alpha
                >= mate_below(ply as int),
            i32::MIN < alpha_in <= alpha < beta,
            !spec_in_check(b0),
            stand_pat == spec_evaluate(b0, *phase),
            stand_pat <= alpha,
            ply <= 20,
            i <= scored@.len(),
            info.best_move == old(info).best_move,
            info.start_time == old(info).start_time,
            info.time_limit_ms == old(info).time_limit_ms,
            !old(info).stopped,
            !info.stopped,
        decreases scored@.len() - i,
    {
        let ghost before = scored@;
        let mv = pick_best(&mut scored, i);
        proof {
            let b = crate::ordering::best_index(before, i as int, before.len() as int);
            lemma_pick_keeps_ok(b0.pieces, before, scored@, i as int, b);
            let old_pos = pos;
            pos = Seq::new(old_pos.len(), |q: int| if old_pos[q] == i { b } else if old_pos[q] == b { i as int } else { old_pos[q] });
            assert forall|q: int| 0 <= q < captures@.len() implies 0 <= #[trigger] pos[q] < scored@.len() && scored@[pos[q]].0
                == captures@[q] by {
                assert(before[old_pos[q]].0 == captures@[q]);
            }
            assert(mv == scored@[i as int].0);
        }
        let captured = mv_captured(mv);
        let from = mv_from(mv);
        let to = mv_to(mv);
        let attacker = board.pieces[from];
        if see_value(attacker) > see_value(captured) + 300 && !mv_is_promotion(mv) {
            let enemy_color = if attacker.is_white() { Color::Black } else { Color::White };
            if is_attacked(board, to, enemy_color) {
                i += 1;
                continue;
            }
        }
        board.make_move(mv);
        let score = -quiescence(board, -beta, -alpha, ply + 1, info, stats, phase, clock);
        board.unmake_move();
        proof {
            lemma_unmake_make(b0, mv);
        }
        if info.stopped {
            return 0;
        }
        if score >= beta {
            return beta;
        }
        if score > alpha {
            alpha = score;
        }
        i += 1;
    }
    proof {
        if exists|m: Move| #[trigger] spec_legal_captures(b0).contains(m) && !qs_skips(b0, m) && mates(b0, m) {
            let m = choose|m: Move| #[trigger] spec_legal_captures(b0).contains(m) && !qs_skips(b0, m) && mates(b0, m);
            let q = choose|q: int| 0 <= q < captures@.len() && captures@[q] == m;
            assert(scored@[pos[q]].0 == m);
        }
    }
    alpha
}


/// The table's slot for `hash` holds this hash, with the given depth, score
/// and flag, or with a greater depth (a deeper result for the same position is kept).
pub open spec fn stored_as(tt: TranspositionTable, hash: u64, depth: i8, score: int, flag: TTFlag) -> bool {
    let e = tt.entries@[slot_of(hash, tt.mask)];
    &&& e.hash == hash
    &&& (e.depth == depth && e.score == score && e.flag == flag) || e.depth > depth
}

/// The table's slot for `hash` holds an entry for it deeper than `depth`.
pub open spec fn deeper_kept(tt: TranspositionTable, hash: u64, depth: i8) -> bool {
    let e = tt.entries@[slot_of(hash, tt.mask)];
    e.hash == hash && e.depth > depth
}

proof fn lemma_store_sets(tt: TranspositionTable, hash: u64, depth: i8, score: i32, flag: TTFlag, mv: Move)
    requires
        tt.wf(),
    ensures
        ({
            let e = spec_store(tt.entries@, tt.mask, hash, depth, score, flag, mv)[slot_of(hash, tt.mask)];
            &&& e.hash == hash
            &&& (e.depth == depth && e.score == score && e.flag == flag) || e.depth > depth
            &&& !deeper_kept(tt, hash, depth) ==> e.depth == depth
        }),
{
    let h = hash as usize;
    let m = tt.mask;
    assert((h & m) <= m) by (bit_vector);
}

/// Moves into the search proper: a principal-variation node searched to
/// depth 1..=127, below the ply limit, not drawn by the fifty-move rule or a
/// repetition.
pub open spec fn pv_interior(b: BoardView, depth: i32, ply: int, is_pv: bool) -> bool {
    &&& is_pv
    &&& 1 <= depth <= 127
    &&& ply < MAX_PLY
    &&& b.half_moves < 100
    &&& !(ply > 0 && repeats(b.history, b.hash, b.history.len() as int))
}

// ─── Alpha-Beta with PVS ─────────────────────────────────────────

/// What an alpha-beta call keeps: the board comes back unchanged, the tables
/// stay well formed, and scores stay bounded; what it finds: mates and
/// stalemates at interior nodes, the stored bound or exact score, and at one
/// ply a mate in one. The search goes no deeper than MAX_PLY plies (the size
/// of the killer table): beyond it the quiescence search answers.
#[verifier::rlimit(100)]
fn alpha_beta<L: Fn(i32, i32) -> i32, C: Fn() -> u64>(
    board: &mut Board,
    depth: i32,
    alpha_in: i32,
    beta: i32,
    ply: usize,
    info: &mut SearchInfo,
    tt: &mut TranspositionTable,
    killers: &mut Killers,
    history: &mut HistoryTable,
    countermoves: &mut CounterMoveTable,
    is_pv: bool,
    stats: &mut SearchStats,
    phase: &PhaseTable,
    lmr: &L,
    clock: &C,
) -> (r: i32)
    requires
        old(board)@.wf(),
        old(tt).wf(),
        tt_sane(*old(tt)),
        old(history).wf(),
        old(countermoves).wf(),
        phase.wf(),
        lmr_ok(lmr),
        clock_ok(clock),
        -INF <= alpha_in < beta <= INF,
        ply <= MAX_PLY,
        -1000 <= depth,
        depth + 2 * (MAX_PLY - ply) <= 1000,
    ensures
        final(board)@ == old(board)@,
        final(board).zobrist == old(board).zobrist,
        final(tt).wf(),
        tt_sane(*final(tt)),
        final(history).wf(),
        final(countermoves).wf(),
        -SCORE_BOUND <= r <= SCORE_BOUND,
        old(info).stopped ==> r == 0 && final(info).stopped,
        ply > 0 ==> final(info).best_move == old(info).best_move,
        ply == 0 ==> final(info).best_move == old(info).best_move || playable(old(board)@, final(info).best_move),
        final(info).start_time == old(info).start_time,
        final(info).time_limit_ms == old(info).time_limit_ms,
        // The search stops only when the clock says the time is up.
        !old(info).stopped && clock_within(clock, old(info).start_time, old(info).time_limit_ms)
            ==> !final(info).stopped,
        // A side with no legal move at an interior node is mated or stalemated;
        // at a shallow node that costs one node.
        !final(info).stopped && pv_interior(old(board)@, depth, ply as int, is_pv) && spec_legal_moves(
            old(board)@,
        ).len() == 0 ==> r == (if spec_in_check(old(board)@) { -(MATE_SCORE - ply) } else { DRAW_SCORE as int })
            && (depth <= 2 ==> final(info).nodes == old(info).nodes.wrapping_add(1)),
        // At the root, a result above alpha comes with the best move recorded.
        !final(info).stopped && ply == 0 && pv_interior(old(board)@, depth, ply as int, is_pv) && spec_legal_moves(
            old(board)@,
        ).len() > 0 && r > alpha_in ==> playable(old(board)@, final(info).best_move),
        // The horizon stores nothing.
        depth <= 0 ==> final(tt).entries@ == old(tt).entries@ && final(tt).mask == old(tt).mask,
        // A one-ply search at a principal-variation node stores nothing below it:
        // its own entry is the one in the slot, unless a deeper one was kept.
        !final(info).stopped && pv_interior(old(board)@, depth, ply as int, is_pv) && depth == 1 && !spec_in_check(
            old(board)@,
        ) && (ply == 0 || spec_legal_moves(old(board)@).len() > 1) && spec_legal_moves(old(board)@).len() > 0
            && !deeper_kept(*old(tt), old(board)@.hash, 1) ==> final(tt).entries@[slot_of(
            old(board)@.hash,
            final(tt).mask,
        )].depth == 1,
        // At the horizon the quiescence search scores a checkmate.
        !final(info).stopped && depth <= 0 && old(board)@.half_moves < 100 && !(ply > 0 && repeats(
            old(board)@.history,
            old(board)@.hash,
            old(board)@.history.len() as int,
        )) && spec_in_check(old(board)@) && spec_legal_moves(old(board)@).len() == 0 ==> r == -(MATE_SCORE - ply),
        // A one-ply search at a principal-variation node finds a mate in one.
        !final(info).stopped && pv_interior(old(board)@, depth, ply as int, is_pv) && depth == 1 && !spec_in_check(
            old(board)@,
        ) && (ply == 0 || spec_legal_moves(old(board)@).len() > 1) && (exists|m: Move|
            #[trigger] spec_legal_moves(old(board)@).contains(m) && mates_at_once(old(board)@, m))
            ==> r >= min_score(beta as int, mate_below(ply as int)),
        // Otherwise the result is stored: a lower bound at beta after a cutoff,
        // an exact score inside the window, an upper bound after failing low.
        !final(info).stopped && pv_interior(old(board)@, depth, ply as int, is_pv) && spec_legal_moves(
            old(board)@,
        ).len() > 0 ==> {
            &&& r <= beta
            &&& r == beta ==> stored_as(*final(tt), old(board)@.hash, depth as i8, spec_score_to_tt(beta as int, ply as int), TTFlag::Beta)
            &&& alpha_in < r < beta ==> stored_as(*final(tt), old(board)@.hash, depth as i8, spec_score_to_tt(r as int, ply as int), TTFlag::Exact)
            &&& r <= alpha_in ==> stored_as(*final(tt), old(board)@.hash, depth as i8, spec_score_to_tt(r as int, ply as int), TTFlag::Alpha)
        },
    decreases MAX_PLY - ply, depth,
{
    let ghost b0 = board@;
    let mut alpha = alpha_in;
    info.check_time(clock);
    if info.stopped {
        return 0;
    }

    // Draw by the fifty-move rule.
    if board.half_moves >= 100 {
        return DRAW_SCORE;
    }

    // Repetition: the same hash earlier in the current reversible stretch.
    if ply > 0 && is_repetition(board) {
        stats.repetition_draws = stats.repetition_draws.wrapping_add(1);
        return DRAW_SCORE;
    }

    // Horizon: quiescence at the leaves (and beyond the ply limit).
    if depth <= 0 || ply >= MAX_PLY {
        return quiescence(board, alpha, beta, ply, info, stats, phase, clock);
    }

    info.nodes = info.nodes.wrapping_add(1);

    let is_root = ply == 0;
    let in_chk = in_check(board);
    let static_eval = if in_chk {
        0
    } else if is_root {
        evaluate_with_log(board, phase)
    } else {
        evaluate(board, phase)
    };

    // Check extension.
    let effective_depth = if in_chk { depth + 1 } else { depth };

    // ─── TT probe ─────────────────────────────────────────
    let mut tt_move = MOVE_NONE;
    let probe = tt.tt_probe(board.hash);
    if let Some(entry) = probe {
        proof {
            let h = board.hash as usize;
            let m = tt.mask;
            assert((h & m) <= m) by (bit_vector);
            assert(entry == tt.entries@[slot_of(board.hash, tt.mask)]);
        }
        tt_move = entry.best_move;
        stats.tt_hits = stats.tt_hits.wrapping_add(1);
        if !is_pv && entry.depth as i32 >= effective_depth {
            let tt_score = score_from_tt(entry.score, ply);
            stats.tt_cutoffs = stats.tt_cutoffs.wrapping_add(1);
            match entry.flag {
                TTFlag::Exact => {
                    return tt_score;
                },
                TTFlag::Alpha => {
                    if tt_score <= alpha {
                        return alpha;
                    }
                },
                TTFlag::Beta => {
                    if tt_score >= beta {
                        return beta;
                    }
                },
            }
        }
    }

    // ─── Razoring ──────────────────────────────────────────
    if !is_pv && !in_chk && effective_depth <= 3 && tt_move == MOVE_NONE {
        let razor_margin = 200 + 150 * effective_depth;
        if static_eval + razor_margin <= alpha {
            let qscore = quiescence(board, alpha, beta, ply, info, stats, phase, clock);
            if qscore <= alpha {
                stats.razor_prunes = stats.razor_prunes.wrapping_add(1);
                return alpha;
            }
        }
    }

    // ─── Reverse futility pruning ──────────────────────────
    if !is_pv && !in_chk && effective_depth < 4 {
        let margin = 120 * effective_depth;
        if static_eval - margin >= beta {
            stats.rfp_prunes = stats.rfp_prunes.wrapping_add(1);
            return static_eval;
        }
    }

    // ─── Null move pruning ─────────────────────────────────
    if !is_pv && !in_chk && depth >= 3 && has_non_pawn_material(board) {
        stats.null_move_tried = stats.null_move_tried.wrapping_add(1);
        let saved_hash = board.hash;
        board.hash = board.hash ^ zobrist_side_key(board);
        board.side = board.side.flip();
        board.ply = if board.ply == u16::MAX { 0 } else { board.ply + 1 };
        let r: i32 = if depth >= 6 { 3 } else { 2 };
        let null_score = -alpha_beta(board, depth - 1 - r, -beta, -beta + 1, ply + 1, info, tt, killers, history, countermoves, false, stats, phase, lmr, clock);
        board.side = board.side.flip();
        board.ply = if board.ply == 0 { u16::MAX } else { board.ply - 1 };
        board.hash = saved_hash;
        proof {
            b0.side.lemma_other_other();
            assert(board@ =~= b0);
        }
        if info.stopped {
            return 0;
        }
        if null_score >= beta {
            stats.null_move_cutoffs = stats.null_move_cutoffs.wrapping_add(1);
            return beta;
        }
    }

    // ─── Internal iterative deepening ──────────────────────
    if tt_move == MOVE_NONE && is_pv && effective_depth >= 4 {
        let _ = alpha_beta(board, effective_depth - 2, alpha, beta, ply, info, tt, killers, history, countermoves, true, stats, phase, lmr, clock);
        if let Some(entry) = tt.tt_probe(board.hash) {
            tt_move = entry.best_move;
        }
    }

    // ─── Countermove for the current position ──────────────
    let (prev_piece_for_cm, prev_to_for_cm) = if ply > 0 && board.history.len() > 0 {
        let last_mv = board.history[board.history.len() - 1].mv;
        let last_to = mv_to(last_mv);
        (board.pieces[last_to], last_to)
    } else {
        (Piece::Empty, 0usize)
    };
    let counter_mv = if ply > 0 && board.history.len() > 0 {
        countermoves.probe(prev_piece_for_cm, prev_to_for_cm)
    } else {
        MOVE_NONE
    };

    // ─── Generate and order moves ──────────────────────────
    let moves = legal_moves(board);
    if moves.len() == 0 {
        if in_chk {
            return -(MATE_SCORE - ply as i32);
        } else {
            return DRAW_SCORE;
        }
    }

    // A single legal reply extends the search.
    let singular_ext: i32 = if moves.len() == 1 && !is_root { 1 } else { 0 };
    let new_depth = effective_depth + singular_ext;

    let is_white_side = board.side == Color::White;
    let mut scored = score_moves(moves.as_slice(), board.pieces.as_slice(), tt_move, killers, history, ply, counter_mv, is_white_side);
    proof {
        assert forall|j: int| 0 <= j < scored@.len() implies #[trigger] move_ok(b0.pieces, scored@[j].0) by {
            assert(move_ok(b0.pieces, moves@[j]));
        }
        assert forall|j: int| 0 <= j < scored@.len() implies spec_legal_moves(b0).contains(#[trigger] scored@[j].0) by {
            assert(moves@[j] == spec_legal_moves(b0)[j]);
        }
    }
    let mut best_move_local = MOVE_NONE;
    let mut best_score = -INF;
    let mut moves_searched: usize = 0;
    let mut quiet_moves_tried: Vec<Move> = Vec::new();
    // Where each legal move now stands in the list being picked from.
    let ghost mut pos: Seq<int> = Seq::new(moves@.len(), |q: int| q);
    let ghost one_ply = depth == 1 && !in_chk && (ply == 0 || moves@.len() > 1) && is_pv;

    let mut i: usize = 0;
    while i < scored.len()
        invariant
            board@ == b0,
            board.zobrist == old(board).zobrist,
            b0 == old(board)@,
            b0.wf(),
            tt.wf(),
            tt_sane(*tt),
            history.wf(),
            countermoves.wf(),
            phase.wf(),
            lmr_ok(lmr),
            clock_ok(clock),
            scored_ok(b0.pieces, scored@),
            forall|j: int| 0 <= j < scored@.len() ==> spec_legal_moves(b0).contains(#[trigger] scored@[j].0),
            -INF <= alpha_in <= alpha < beta <= INF,
            -INF <= best_score <= alpha,
            ply < MAX_PLY,
            1 <= depth,
            depth <= effective_depth <= depth + 1,
            effective_depth <= new_depth <= effective_depth + 1,
            depth + 2 * (MAX_PLY - ply) <= 1000,
            i <= scored@.len(),
            moves_searched <= i,
            !old(info).stopped,
            clock_within(clock, old(info).start_time, old(info).time_limit_ms) ==> !info.stopped,
            info.start_time == old(info).start_time,
            info.time_limit_ms == old(info).time_limit_ms,
            is_root == (ply == 0),
            ply > 0 ==> info.best_move == old(info).best_move,
            ply == 0 ==> info.best_move == old(info).best_move || playable(b0, info.best_move),
            -EVAL_BOUND <= static_eval <= EVAL_BOUND,
            moves@ == spec_legal_moves(b0),
            pos.len() == moves@.len(),
            forall|q: int| 0 <= q < moves@.len() ==> 0 <= #[trigger] pos[q] < scored@.len() && scored@[pos[q]].0
                == moves@[q],
            one_ply == (depth == 1 && !spec_in_check(b0) && (ply == 0 || moves@.len() > 1) && is_pv),
            one_ply ==> new_depth == 1 && !in_chk && tt.entries@ == old(tt).entries@ && tt.mask == old(tt).mask,
            is_root && alpha > alpha_in ==> playable(b0, info.best_move),
            one_ply ==> forall|j: int| 0 <= j < i && mates_at_once(b0, #[trigger] scored@[j].0) ==> best_score
                >= mate_below(ply as int),
        decreases scored@.len() - i,
    {
        let ghost before = scored@;
        let mv = pick_best(&mut scored, i);
        proof {
            let b = crate::ordering::best_index(before, i as int, before.len() as int);
            lemma_pick_keeps_ok(b0.pieces, before, scored@, i as int, b);
            let old_pos = pos;
            pos = Seq::new(old_pos.len(), |q: int| if old_pos[q] == i { b } else if old_pos[q] == b { i as int } else { old_pos[q] });
            assert forall|q: int| 0 <= q < moves@.len() implies 0 <= #[trigger] pos[q] < scored@.len() && scored@[pos[q]].0
                == moves@[q] by {
                assert(before[old_pos[q]].0 == moves@[q]);
            }
            assert(mv == scored@[i as int].0);
            assert(spec_legal_moves(b0).contains(before[b].0));
            assert forall|j: int| 0 <= j < scored@.len() implies spec_legal_moves(b0).contains(#[trigger] scored@[j].0) by {
                if j == b {
                    assert(spec_legal_moves(b0).contains(before[i as int].0));
                } else if j == i {
                    assert(spec_legal_moves(b0).contains(before[b].0));
                } else {
                    assert(spec_legal_moves(b0).contains(before[j].0));
                }
            }
        }
        let is_capture = mv_captured(mv) != Piece::Empty;
        let is_prom = mv_is_promotion(mv);
        let is_quiet = !is_capture && !is_prom;

        // ─── Futility pruning ──────────────────────────────
        if !is_pv && !in_chk && !is_capture && !is_prom && effective_depth <= 2 && moves_searched > 0
            && best_score > -MATE_SCORE {
            let futil_margin = 150 * effective_depth;
            if static_eval + futil_margin <= alpha {
                stats.futility_prunes = stats.futility_prunes.wrapping_add(1);
                i += 1;
                continue;
            }
        }

        // ─── Late move pruning ─────────────────────────────
        if !is_pv && !in_chk && is_quiet && effective_depth <= 2 && moves_searched >= 12 + 5
            * effective_depth as usize {
            stats.lmp_prunes = stats.lmp_prunes.wrapping_add(1);
            i += 1;
            continue;
        }

        if is_quiet {
            quiet_moves_tried.push(mv);
        }

        board.make_move(mv);

        let score: i32;
        if moves_searched == 0 {
            score = -alpha_beta(board, new_depth - 1, -beta, -alpha, ply + 1, info, tt, killers, history, countermoves, is_pv, stats, phase, lmr, clock);
        } else {
            // ─── Late move reductions ──────────────────────
            let mut reduction: i32 = 0;
            if is_quiet && !in_chk {
                reduction = lmr(depth, moves_searched as i32);
                if killers.is_killer(ply, mv).is_some() || mv == counter_mv {
                    reduction = if reduction - 1 > 0 { reduction - 1 } else { 0 };
                }
                let h_score = history.score(mv_from(mv), mv_to(mv), is_white_side);
                if h_score < -100 {
                    reduction += 1;
                } else if h_score > 200 {
                    reduction = if reduction - 1 > 0 { reduction - 1 } else { 0 };
                }
                reduction = if reduction < new_depth - 2 { reduction } else { new_depth - 2 };
                reduction = if reduction > 0 { reduction } else { 0 };
                if reduction > 0 {
                    stats.lmr_reductions = stats.lmr_reductions.wrapping_add(1);
                }
            }

            let mut s = -alpha_beta(board, new_depth - 1 - reduction, -alpha - 1, -alpha, ply + 1, info, tt, killers, history, countermoves, false, stats, phase, lmr, clock);

            if s > alpha && reduction > 0 {
                stats.lmr_re_searches = stats.lmr_re_searches.wrapping_add(1);
                s = -alpha_beta(board, new_depth - 1, -alpha - 1, -alpha, ply + 1, info, tt, killers, history, countermoves, false, stats, phase, lmr, clock);
            }

            if s > alpha && s < beta {
                s = -alpha_beta(board, new_depth - 1, -beta, -alpha, ply + 1, info, tt, killers, history, countermoves, true, stats, phase, lmr, clock);
            }

            score = s;
        }

        board.unmake_move();
        proof {
            lemma_unmake_make(b0, mv);
        }

        if info.stopped {
            return 0;
        }

        if score > best_score {
            best_score = score;
            best_move_local = mv;

            if score > alpha {
                alpha = score;

                if is_root {
                    info.best_move = mv;
                    info.best_score = score;
                }

                if score >= beta {
                    if is_quiet {
                        killers.add(ply, mv);
                        assert(depth * depth <= HIST_MAX) by (nonlinear_arith)
                            requires
                                1 <= depth <= 1000,
                        ;
                        history.add(mv_from(mv), mv_to(mv), depth, is_white_side);
                        countermoves.store(prev_piece_for_cm, prev_to_for_cm, mv);
                        let mut q: usize = 0;
                        while q < quiet_moves_tried.len()
                            invariant
                                history.wf(),
                                1 <= depth <= 1000,
                                depth * depth <= HIST_MAX,
                                q <= quiet_moves_tried@.len(),
                            decreases quiet_moves_tried@.len() - q,
                        {
                            let qm = quiet_moves_tried[q];
                            if qm != mv {
                                history.penalize(mv_from(qm), mv_to(qm), depth, is_white_side);
                            }
                            q += 1;
                        }
                    }
                    let stored = score_to_tt(beta, ply);
                    proof {
                        lemma_store_sane(*tt, board.hash, depth as i8, stored, TTFlag::Beta, mv);
                        lemma_store_sets(*tt, board.hash, depth as i8, stored, TTFlag::Beta, mv);
                    }
                    tt.tt_store(board.hash, depth as i8, stored, TTFlag::Beta, mv);
                    return beta;
                }
            }
        }

        moves_searched += 1;
        i += 1;
    }

    proof {
        if one_ply && exists|m: Move| #[trigger] spec_legal_moves(b0).contains(m) && mates_at_once(b0, m) {
            let m = choose|m: Move| #[trigger] spec_legal_moves(b0).contains(m) && mates_at_once(b0, m);
            let q = choose|q: int| 0 <= q < moves@.len() && moves@[q] == m;
            assert(scored@[pos[q]].0 == m);
        }
    }
    // Store in the table.
    let flag = if best_score > alpha_in { TTFlag::Exact } else { TTFlag::Alpha };
    let stored = score_to_tt(best_score, ply);
    proof {
        lemma_store_sane(*tt, board.hash, depth as i8, stored, flag, best_move_local);
        lemma_store_sets(*tt, board.hash, depth as i8, stored, flag, best_move_local);
    }
    tt.tt_store(board.hash, depth as i8, stored, flag, best_move_local);

    best_score
}

// ─── Main search entry ──────────────────────────────────────────

/// Tables that persist from one search to the next: the transposition table,
/// the history scores and the countermoves.
pub struct GlobalSearchState {
    pub tt: TranspositionTable,
    pub history: HistoryTable,
    pub countermoves: CounterMoveTable,
}

impl GlobalSearchState {
    pub open spec fn wf(&self) -> bool {
        &&& self.tt.wf()
        &&& tt_sane(self.tt)
        &&& self.history.wf()
        &&& self.countermoves.wf()
    }

    /// A 32 MB transposition table and empty history and countermove tables.
    pub fn new() -> (s: Self)
        ensures
            s.wf(),
            forall|i: int| 0 <= i < s.tt.entries@.len() ==> #[trigger] s.tt.entries@[i] == crate::tt::empty_entry(),
            forall|i: int| 0 <= i < crate::ordering::HIST_SIZE ==> #[trigger] s.history.white@[i] == 0 && s.history.black@[i] == 0,
            forall|i: int, j: int| 0 <= i < 22 && 0 <= j < MAILBOX_SIZE ==> #[trigger] s.countermoves.table@[i]@[j] == MOVE_NONE,
    {
        let tt = TranspositionTable::new(32);
        GlobalSearchState { tt, history: HistoryTable::new(), countermoves: CounterMoveTable::new() }
    }
}

/// A checkmated side to move, not drawn by the fifty-move rule, searched with a
/// clock that never runs a whole time limit between two readings.
pub open spec fn mated_root<C: Fn() -> u64>(b: BoardView, time_limit_ms: u64, clock: &C) -> bool {
    &&& clock_steady(clock, time_limit_ms)
    &&& b.half_moves < 100
    &&& spec_in_check(b)
    &&& spec_legal_moves(b).len() == 0
}

/// The side to move, not in check and not drawn by the fifty-move rule, can
/// mate in one, and the clock never runs a whole time limit between two readings.
pub open spec fn mate_in_one_root<C: Fn() -> u64>(b: BoardView, time_limit_ms: u64, clock: &C) -> bool {
    &&& clock_steady(clock, time_limit_ms)
    &&& b.half_moves < 100
    &&& !spec_in_check(b)
    &&& exists|m: Move| #[trigger] spec_legal_moves(b).contains(m) && mates_at_once(b, m)
}

/// Deepest iteration for a difficulty: 4 at medium (difficulty 0 or less),
/// 64 at master (in practice bounded by the time limit).
pub open spec fn max_depth_for(difficulty: i32) -> i32 {
    if difficulty <= 0 { 4 } else { 64 }
}

/// Iterative deepening with aspiration windows, then a check at the root that
/// the chosen piece is not left en prise. Returns the move (MOVE_NONE if none was
/// found), its score (-INF with MOVE_NONE), the last completed depth and the node
/// count. The board comes back unchanged and the tables stay well formed; the
/// move is legal and depth 1 always counts as reached. Whether a move comes
/// back, and which, depends on the clock: a search whose time is already up at
/// its first node, or whose position has reached the fifty-move limit, finds
/// none. With a clock that never runs a whole time limit between two readings,
/// a checkmated side gets no move after one node and a side that can mate in
/// one gets a legal move.
pub fn search_best_move<L: Fn(i32, i32) -> i32, C: Fn() -> u64>(
    board: &mut Board,
    time_limit_ms: u64,
    difficulty: i32,
    state: &mut GlobalSearchState,
    phase: &PhaseTable,
    lmr: &L,
    clock: &C,
) -> (r: (Move, i32, i32, u64))
    requires
        old(board)@.wf(),
        old(state).wf(),
        phase.wf(),
        lmr_ok(lmr),
        clock_ok(clock),
    ensures
        final(board)@ == old(board)@,
        final(board).zobrist == old(board).zobrist,
        final(state).wf(),
        legal_or_none(old(board)@, r.0),
        r.0 == MOVE_NONE ==> r.1 == -INF,
        -SCORE_BOUND <= r.1 <= SCORE_BOUND,
        1 <= r.2 <= max_depth_for(difficulty),
        // A checkmated side gets no move, after one node at depth 1, when the
        // clock never runs a whole time limit between two readings.
        mated_root(old(board)@, time_limit_ms, clock) ==> r.0 == MOVE_NONE && r.1 == -INF && r.2 == 1 && r.3 == 1,
        // A side that can mate in one gets a move.
        mate_in_one_root(old(board)@, time_limit_ms, clock) ==> spec_legal_moves(old(board)@).contains(r.0),
{
    let ghost b0 = board@;
    let ghost mated = mated_root(b0, time_limit_ms, clock);
    let ghost mate1 = mate_in_one_root(b0, time_limit_ms, clock);
    let mut info = SearchInfo::new(time_limit_ms, clock);
    let ghost start0 = info.start_time;
    proof {
        if mated || mate1 {
            assert forall|t: u64| #[trigger] clock.ensures((), t) implies !spec_time_up(t, start0, time_limit_ms) by {
                assert(!spec_time_up(t, start0, time_limit_ms));
            }
        }
    }
    let mut killers = Killers::new();
    let mut stats = SearchStats::new();

    let max_depth: i32 = if difficulty <= 0 { 4 } else { 64 };

    let mut best_move = MOVE_NONE;
    let mut best_score = -INF;
    let mut reached_depth: i32 = 0;

    let mut depth: i32 = 1;
    while depth <= max_depth
        invariant_except_break
            mated ==> clock_within(clock, start0, time_limit_ms) && depth == 1 && info.nodes == 0
                && best_move == MOVE_NONE,
        invariant
            board@ == b0,
            board.zobrist == old(board).zobrist,
            b0 == old(board)@,
            b0.wf(),
            state.wf(),
            phase.wf(),
            lmr_ok(lmr),
            clock_ok(clock),
            max_depth == max_depth_for(difficulty),
            1 <= depth <= max_depth + 1,
            0 <= reached_depth <= depth,
            depth > 1 ==> reached_depth >= 1,
            reached_depth <= max_depth,
            best_move == MOVE_NONE || playable(b0, best_move),
            best_move == MOVE_NONE ==> best_score == -INF,
            -SCORE_BOUND <= best_score <= SCORE_BOUND,
            info.best_move == MOVE_NONE || playable(b0, info.best_move),
            info.start_time == start0,
            info.time_limit_ms == time_limit_ms,
            mated == mated_root(b0, time_limit_ms, clock),
            mate1 == mate_in_one_root(b0, time_limit_ms, clock),
            mate1 ==> clock_within(clock, start0, time_limit_ms),
            mate1 && depth > 1 ==> playable(b0, best_move),
        ensures
            reached_depth >= 1,
            mate1 ==> playable(b0, best_move),
            mated ==> reached_depth == 1 && info.nodes == 1 && best_move == MOVE_NONE,
        decreases max_depth + 1 - depth,
    {
        info.stopped = false;

        // Aspiration window once a previous iteration gave a non-mate score.
        let mut alpha: i32;
        let mut beta: i32;
        if depth >= 5 && reached_depth > 0 && -(MATE_SCORE - 200) < best_score && best_score < MATE_SCORE - 200 {
            alpha = best_score - 35;
            beta = best_score + 35;
        } else {
            alpha = -INF;
            beta = INF;
        }

        let mut score_dropped = false;
        let mut score: i32;
        loop
            invariant_except_break
                mated ==> clock_within(clock, start0, time_limit_ms) && depth == 1 && info.nodes == 0
                    && !info.stopped && alpha == -INF && beta == INF,
                mate1 && depth == 1 ==> !info.stopped && alpha == -INF && beta == INF,
            invariant
                board@ == b0,
                board.zobrist == old(board).zobrist,
                b0.wf(),
                state.wf(),
                phase.wf(),
                lmr_ok(lmr),
                clock_ok(clock),
                -INF <= alpha < beta <= INF,
                1 <= depth <= 64,
                info.best_move == MOVE_NONE || playable(b0, info.best_move),
                info.start_time == start0,
                info.time_limit_ms == time_limit_ms,
                mated == mated_root(b0, time_limit_ms, clock),
                mate1 == mate_in_one_root(b0, time_limit_ms, clock),
                mate1 ==> clock_within(clock, start0, time_limit_ms),
            ensures
                board@ == b0,
                board.zobrist == old(board).zobrist,
                state.wf(),
                -SCORE_BOUND <= score <= SCORE_BOUND,
                info.best_move == MOVE_NONE || playable(b0, info.best_move),
                info.start_time == start0,
                info.time_limit_ms == time_limit_ms,
                mated ==> score == -MATE_SCORE && info.nodes == 1 && !info.stopped,
                mate1 && depth == 1 ==> !info.stopped && playable(b0, info.best_move),
            decreases (if alpha == -INF { 0int } else { 1int }) + (if beta == INF { 0int } else { 1int }),
        {
            score = alpha_beta(board, depth, alpha, beta, 0, &mut info, &mut state.tt, &mut killers,
                &mut state.history, &mut state.countermoves, true, &mut stats, phase, lmr, clock);
            proof {
                if mated || (mate1 && depth == 1) {
                    assert(pv_interior(b0, depth, 0, true));
                }
            }
            if info.stopped {
                break;
            }
            if score <= alpha {
                // A fail low with the window already open below has nothing left to widen.
                if alpha == -INF {
                    break;
                }
                alpha = -INF;
                score_dropped = true;
            } else if score >= beta {
                if beta == INF {
                    break;
                }
                beta = INF;
            } else {
                break;
            }
        }

        if info.stopped && depth > 1 {
            break;
        }

        reached_depth = depth;

        if info.best_move != MOVE_NONE {
            best_move = info.best_move;
            best_score = score;
        }

        // A mate was found: deeper iterations add nothing.
        if score > MATE_SCORE - 100 || score < -(MATE_SCORE - 100) {
            break;
        }

        // Soft time limit: 85% of the budget after a fail low, 60% otherwise.
        let elapsed = clock().wrapping_sub(info.start_time);
        let soft_limit_pct: u64 = if score_dropped { 85 } else { 60 };
        if elapsed >= time_limit_ms.wrapping_mul(soft_limit_pct) / 100 {
            break;
        }
        depth += 1;
    }

    // ─── Root blunder check ─────────────────────────────────
    if best_move != MOVE_NONE && difficulty > 0 {
        let from = mv_from(best_move);
        let to = mv_to(best_move);
        let piece = board.pieces[from];
        let captured = mv_captured(best_move);
        let piece_val = see_value(piece);
        let capt_val = if captured != Piece::Empty { see_value(captured) } else { 0 };

        if !piece.is_pawn() && !piece.is_king_type() && piece_val > 120 {
            let enemy_color = if piece.is_white() { Color::Black } else { Color::White };
            let friendly_color = if piece.is_white() { Color::White } else { Color::Black };

            board.make_move(best_move);
            let dest_attacked = is_attacked(board, to, enemy_color);
            let dest_defended = is_attacked(board, to, friendly_color);
            board.unmake_move();
            proof {
                lemma_unmake_make(b0, best_move);
            }

            if dest_attacked && !dest_defended && capt_val < piece_val / 2 {
                let moves = legal_moves(board);
                let is_white_side = board.side == Color::White;
                let mut scored = score_moves(moves.as_slice(), board.pieces.as_slice(), best_move, &killers,
                    &state.history, 0, MOVE_NONE, is_white_side);
                proof {
                    assert forall|j: int| 0 <= j < scored@.len() implies #[trigger] move_ok(b0.pieces, scored@[j].0) by {
                        assert(move_ok(b0.pieces, moves@[j]));
                    }
                    assert forall|j: int| 0 <= j < scored@.len() implies spec_legal_moves(b0).contains(#[trigger] scored@[j].0) by {
                        assert(moves@[j] == spec_legal_moves(b0)[j]);
                    }
                }

                let mut fallback_move = MOVE_NONE;
                let mut fallback_score = -INF;
                let mut safe_moves_tried: i32 = 0;

                let mut i: usize = 0;
                while i < scored.len()
                    invariant_except_break
                        0 <= safe_moves_tried < 3,
                    invariant
                        board@ == b0,
                        board.zobrist == old(board).zobrist,
                        b0.wf(),
                        state.wf(),
                        phase.wf(),
                        lmr_ok(lmr),
                        clock_ok(clock),
                        scored_ok(b0.pieces, scored@),
                        forall|j: int| 0 <= j < scored@.len() ==> spec_legal_moves(b0).contains(#[trigger] scored@[j].0),
                        i <= scored@.len(),
                        fallback_move == MOVE_NONE || playable(b0, fallback_move),
                        -SCORE_BOUND <= fallback_score <= SCORE_BOUND,
                        info.best_move == MOVE_NONE || playable(b0, info.best_move),
                    decreases scored@.len() - i,
                {
                    let ghost before = scored@;
                    let mv = pick_best(&mut scored, i);
                    proof {
                        let b = crate::ordering::best_index(before, i as int, before.len() as int);
                        lemma_pick_keeps_ok(b0.pieces, before, scored@, i as int, b);
                        assert(spec_legal_moves(b0).contains(before[b].0));
                        assert forall|j: int| 0 <= j < scored@.len() implies spec_legal_moves(b0).contains(#[trigger] scored@[j].0) by {
                            if j == b {
                                assert(spec_legal_moves(b0).contains(before[i as int].0));
                            } else if j == i {
                                assert(spec_legal_moves(b0).contains(before[b].0));
                            } else {
                                assert(spec_legal_moves(b0).contains(before[j].0));
                            }
                        }
                    }
                    if mv == best_move {
                        i += 1;
                        continue;
                    }

                    let mv_to_sq = mv_to(mv);
                    let mv_piece = board.pieces[mv_from(mv)];
                    let mv_capt = mv_captured(mv);
                    let mv_piece_val = see_value(mv_piece);
                    let mv_capt_val = if mv_capt != Piece::Empty { see_value(mv_capt) } else { 0 };

                    // Strict safety check on the alternative.
                    let mut is_safe = true;
                    if !mv_piece.is_pawn() && !mv_piece.is_king_type() && mv_piece_val > 120 {
                        board.make_move(mv);
                        let atk = is_attacked(board, mv_to_sq, enemy_color);
                        board.unmake_move();
                        proof {
                            lemma_unmake_make(b0, mv);
                        }
                        if atk && mv_capt_val < mv_piece_val / 2 {
                            is_safe = false;
                        }
                    }

                    if is_safe {
                        // A shallow search gives the alternative a rough score,
                        // whether or not the clock has run out.
                        let was_stopped = info.stopped;
                        info.stopped = false;
                        board.make_move(mv);
                        let s = -alpha_beta(board, 2, -INF, INF, 1, &mut info, &mut state.tt, &mut killers,
                            &mut state.history, &mut state.countermoves, true, &mut stats, phase, lmr, clock);
                        board.unmake_move();
                        proof {
                            lemma_unmake_make(b0, mv);
                        }
                        info.stopped = was_stopped;

                        if s > fallback_score {
                            fallback_score = s;
                            fallback_move = mv;
                        }
                        safe_moves_tried += 1;
                        if safe_moves_tried >= 3 {
                            break;
                        }
                    }
                    i += 1;
                }

                if fallback_move != MOVE_NONE {
                    best_move = fallback_move;
                    best_score = fallback_score;
                }
            }
        }
    }

    // Medium difficulty: the move is passed through the weakening step.
    if difficulty <= 0 {
        best_move = maybe_weaken(board, best_move);
    }

    (best_move, best_score, reached_depth, info.nodes)
}

// ─── Move text ───────────────────────────────────────────────────

/// Letter of a file: 'a' for file 1.
pub open spec fn file_letter(f: int) -> char {
    ((96 + f) as u32) as char
}

/// A square as file letter and rank number ("f1", "b10", "f0" for a citadel).
pub open spec fn square_text(s: int) -> Seq<char> {
    seq![file_letter(spec_file_brd(s) as int)] + crate::board::count_digits(spec_rank_brd(s) as int)
}

/// Coordinate text of a move: origin then destination, or "none".
pub open spec fn move_text(mv: Move) -> Seq<char> {
    if mv == MOVE_NONE {
        seq!['n', 'o', 'n', 'e']
    } else {
        square_text(crate::types::spec_mv_from(mv) as int) + square_text(crate::types::spec_mv_to(mv) as int)
    }
}

fn push_square(s: &mut String, sqr: usize)
    requires
        on_board(sqr as int),
    ensures
        final(s)@ == old(s)@ + square_text(sqr as int),
{
    let f = file_brd(sqr);
    let r = rank_brd(sqr);
    proof {
        crate::board::lemma_on_board_coords(sqr as int);
    }
    let letter = file_char(f);
    crate::board::push_char(s, letter);
    crate::board::push_empty_count(s, r);
    assert(s@ =~= old(s)@ + square_text(sqr as int));
}

fn file_char(f: i32) -> (c: char)
    requires
        1 <= f <= 11,
    ensures
        c == file_letter(f as int),
{
    match f {
        1 => 'a',
        2 => 'b',
        3 => 'c',
        4 => 'd',
        5 => 'e',
        6 => 'f',
        7 => 'g',
        8 => 'h',
        9 => 'i',
        10 => 'j',
        _ => 'k',
    }
}

/// Coordinate text of a move, such as "a2a3", or "none".
pub fn move_to_string(mv: Move, _board: &Board) -> (s: String)
    requires
        mv == MOVE_NONE || (on_board(crate::types::spec_mv_from(mv) as int) && on_board(crate::types::spec_mv_to(mv) as int)),
    ensures
        s@ == move_text(mv),
{
    let mut s = String::new();
    if mv == MOVE_NONE {
        crate::board::push_char(&mut s, 'n');
        crate::board::push_char(&mut s, 'o');
        crate::board::push_char(&mut s, 'n');
        crate::board::push_char(&mut s, 'e');
        assert(s@ =~= seq!['n', 'o', 'n', 'e']);
        return s;
    }
    push_square(&mut s, mv_from(mv));
    push_square(&mut s, mv_to(mv));
    assert(s@ =~= move_text(mv));
    s
}

} // verus!
