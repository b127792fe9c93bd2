use vstd::prelude::*;

pub mod types;
pub mod board;
pub mod attack;
pub mod movegen;
pub mod eval;
pub mod ordering;
pub mod tt;
pub mod search;
pub mod uci;
pub mod server;
pub mod fen_laws;
pub mod move_laws;

use crate::types::{Color, Move, MOVE_NONE, mv_from, mv_to, spec_mv_from, spec_mv_to};
use crate::board::{
    Board, BoardView, fen_readable, fen_position, fen_black, standard_keys, standard_side_key,
    count_digits, spec_file_brd, spec_rank_brd, file_brd, rank_brd, push_char, push_empty_count,
    reads_fen,
};
use crate::movegen::{legal_moves, spec_legal_moves};
use crate::attack::{in_check, spec_in_check};
use crate::search::{search_best_move, GlobalSearchState, lmr_ok, clock_ok, legal_or_none, mated_root, mate_in_one_root};
use crate::eval::PhaseTable;

verus! {

// ─── Positions from FEN ─────────────────────────────────────────

/// The position a readable FEN text describes, with the standard keys,
/// fresh counters and no history.
pub open spec fn fen_view(s: Seq<char>) -> BoardView {
    BoardView {
        pieces: fen_position(s).0,
        side: if fen_black(s) { Color::Black } else { Color::White },
        hash: if fen_black(s) { fen_position(s).1 ^ standard_side_key() } else { fen_position(s).1 },
        ply: 0,
        half_moves: 0,
        history: Seq::empty(),
        keys: standard_keys(),
        side_key: standard_side_key(),
    }
}

pub proof fn lemma_reads_fen_view(b: Board, s: Seq<char>)
    requires
        reads_fen(b, s),
    ensures
        b@ == fen_view(s),
{
    assert(b@.history =~= Seq::<crate::board::UndoInfo>::empty());
    assert(b@ =~= fen_view(s));
}

// ─── Text of numbers and moves ──────────────────────────────────

/// Decimal text of a small integer, '-' first for a negative one.
pub open spec fn int_text(n: int) -> Seq<char> {
    if n < 0 { seq!['-'] + count_digits(-n) } else { count_digits(n) }
}

/// "from_file,from_rank,to_file,to_rank" of a move (1-based; -1 off the board).
pub open spec fn coords_text(m: Move) -> Seq<char> {
    int_text(spec_file_brd(spec_mv_from(m)) as int) + seq![','] + int_text(spec_rank_brd(spec_mv_from(m)) as int)
        + seq![','] + int_text(spec_file_brd(spec_mv_to(m)) as int) + seq![','] + int_text(
        spec_rank_brd(spec_mv_to(m)) as int,
    )
}

/// The answer to a best-move request: the coordinates of the move
/// ("6,2,6,3"), or "none".
pub open spec fn best_move_text(m: Move) -> Seq<char> {
    if m == MOVE_NONE {
        "none"@
    } else {
        coords_text(m)
    }
}

/// The coordinates of the first `n` moves, separated by ','.
pub open spec fn moves_text(ms: Seq<Move>, n: int) -> Seq<char>
    decreases n,
{
    if n <= 0 {
        seq![]
    } else if n == 1 {
        coords_text(ms[0])
    } else {
        moves_text(ms, n - 1) + seq![','] + coords_text(ms[n - 1])
    }
}

fn push_int(s: &mut String, n: i32)
    requires
        -99 <= n <= 99,
    ensures
        final(s)@ == old(s)@ + int_text(n as int),
{
    if n < 0 {
        push_char(s, '-');
        push_empty_count(s, -n);
        assert(final(s)@ =~= old(s)@ + int_text(n as int));
    } else {
        push_empty_count(s, n);
    }
}

fn push_coords(s: &mut String, m: Move)
    ensures
        final(s)@ == old(s)@ + coords_text(m),
{
    let from = mv_from(m);
    let to = mv_to(m);
    push_int(s, file_brd(from));
    push_char(s, ',');
    push_int(s, rank_brd(from));
    push_char(s, ',');
    push_int(s, file_brd(to));
    push_char(s, ',');
    push_int(s, rank_brd(to));
    assert(final(s)@ =~= old(s)@ + coords_text(m));
}

/// The best-move answer for a move (see `best_move_text`).
pub fn best_move_string(m: Move) -> (s: String)
    ensures
        s@ == best_move_text(m),
{
    if m == MOVE_NONE {
        return "none".to_owned();
    }
    let mut s = String::new();
    push_coords(&mut s, m);
    assert(s@ =~= best_move_text(m));
    s
}

// ─── Engine entry points ────────────────────────────────────────

/// Searches the FEN position for `time_ms` milliseconds at the given difficulty
/// (0 or less: medium, above: master) and answers with the coordinates
/// "from_file,from_rank,to_file,to_rank" (1-based) of a legal move, or "none".
pub fn get_best_move<L: Fn(i32, i32) -> i32, C: Fn() -> u64>(
    fen: &str,
    time_ms: u32,
    difficulty: i32,
    state: &mut GlobalSearchState,
    phase: &PhaseTable,
    lmr: &L,
    clock: &C,
) -> (s: String)
    requires
        fen_readable(fen@),
        old(state).wf(),
        phase.wf(),
        lmr_ok(lmr),
        clock_ok(clock),
    ensures
        final(state).wf(),
        exists|m: Move| legal_or_none(fen_view(fen@), m) && s@ == best_move_text(m),
        // A checkmated side gets "none" when the clock never runs a whole time
        // limit between two readings.
        mated_root(fen_view(fen@), time_ms as u64, clock) ==> s@ == best_move_text(MOVE_NONE),
        // A side that can mate in one gets a legal move.
        mate_in_one_root(fen_view(fen@), time_ms as u64, clock) ==> exists|m: Move| #[trigger] spec_legal_moves(
            fen_view(fen@),
        ).contains(m) && s@ == best_move_text(m),
{
    let mut board = Board::from_fen(fen);
    proof {
        lemma_reads_fen_view(board, fen@);
    }
    let (mv, _score, _depth, _nodes) = search_best_move(&mut board, time_ms as u64, difficulty, state, phase, lmr, clock);
    best_move_string(mv)
}

/// The legal moves of the FEN position as `moves_text`: a comma-separated
/// list of "from_file,from_rank,to_file,to_rank" moves (empty when there are none).
pub fn get_legal_moves(fen: &str) -> (s: String)
    requires
        fen_readable(fen@),
    ensures
        s@ == moves_text(spec_legal_moves(fen_view(fen@)), spec_legal_moves(fen_view(fen@)).len() as int),
{
    let mut board = Board::from_fen(fen);
    proof {
        lemma_reads_fen_view(board, fen@);
    }
    let moves = legal_moves(&mut board);
    let mut result = String::new();
    let mut i: usize = 0;
    while i < moves.len()
        invariant
            i <= moves@.len(),
            result@ == moves_text(moves@, i as int),
        decreases moves@.len() - i,
    {
        if i > 0 {
            push_char(&mut result, ',');
        }
        push_coords(&mut result, moves[i]);
        proof {
            if i > 0 {
                assert(result@ =~= moves_text(moves@, (i + 1) as int));
            } else {
                assert(result@ =~= moves_text(moves@, 1));
            }
        }
        i += 1;
    }
    result
}

/// State of the game for the side to move.
pub open spec fn status_text(b: BoardView) -> Seq<char> {
    if spec_legal_moves(b).len() == 0 {
        if spec_in_check(b) {
            if b.side == Color::White { "checkmate_black"@ } else { "checkmate_white"@ }
        } else {
            "stalemate"@
        }
    } else if spec_in_check(b) {
        "check"@
    } else {
        "playing"@
    }
}

/// "playing", "check", "checkmate_white" (White has won), "checkmate_black"
/// (Black has won) or "stalemate" for the FEN position.
pub fn get_game_status(fen: &str) -> (s: String)
    requires
        fen_readable(fen@),
    ensures
        s@ == status_text(fen_view(fen@)),
{
    let mut board = Board::from_fen(fen);
    proof {
        lemma_reads_fen_view(board, fen@);
    }
    let moves = legal_moves(&mut board);
    let in_chk = in_check(&board);
    if moves.len() == 0 {
        if in_chk {
            match board.side {
                Color::White => return "checkmate_black".to_owned(),
                Color::Black => return "checkmate_white".to_owned(),
            }
        } else {
            return "stalemate".to_owned();
        }
    }
    if in_chk {
        "check".to_owned()
    } else {
        "playing".to_owned()
    }
}

} // verus!
