use vstd::prelude::*;
use crate::types::{Move, MOVE_NONE, INF};
use crate::board::{Board, fen_readable};
use crate::movegen::{lemma_moves_on_board, on_board_move, spec_legal_moves};
use crate::search::{
    search_best_move, move_to_string, move_text, max_depth_for, GlobalSearchState, lmr_ok, clock_ok,
    legal_or_none, mated_root, mate_in_one_root, SCORE_BOUND,
};
use crate::uci::empty_board_view;
use crate::eval::PhaseTable;
use crate::fen_view;

verus! {

/// Search time in milliseconds when a request names none.
pub const DEFAULT_MOVETIME: u64 = 5000;

/// Difficulty when a request names none (master).
pub const DEFAULT_LEVEL: i32 = 1;

/// Time and difficulty of a search request, with the defaults for what it leaves out.
pub fn request_params(time: Option<u64>, level: Option<i32>) -> (r: (u64, i32))
    ensures
        r.0 == (match time { Some(t) => t, None => DEFAULT_MOVETIME }),
        r.1 == (match level { Some(l) => l, None => DEFAULT_LEVEL }),
{
    let movetime = match time {
        Some(t) => t,
        None => DEFAULT_MOVETIME,
    };
    let difficulty = match level {
        Some(l) => l,
        None => DEFAULT_LEVEL,
    };
    (movetime, difficulty)
}

/// What the server answers to a search request.
pub struct SearchReply {
    pub score: i32,
    pub nodes: u64,
    pub depth: i32,
    pub best_move: String,
}

/// The position a request asks about: its FEN text, or the empty board.
pub open spec fn request_board(fen: Option<&str>) -> crate::board::BoardView {
    match fen {
        Some(f) => fen_view(f@),
        None => empty_board_view(),
    }
}

/// Answers a request of the given type: a "search" request is searched (see
/// `request_params` for time and difficulty) and answered with the move text
/// of a legal move of the requested position, or "none"; any other type gets
/// no answer.
pub fn handle_request<L: Fn(i32, i32) -> i32, C: Fn() -> u64>(
    msg_type: &str,
    fen: Option<&str>,
    time: Option<u64>,
    level: Option<i32>,
    state: &mut GlobalSearchState,
    phase: &PhaseTable,
    lmr: &L,
    clock: &C,
) -> (reply: Option<SearchReply>)
    requires
        old(state).wf(),
        phase.wf(),
        lmr_ok(lmr),
        clock_ok(clock),
        fen matches Some(f) ==> fen_readable(f@),
    ensures
        final(state).wf(),
        reply is Some <==> msg_type@ == "search"@,
        reply matches Some(r) ==> exists|m: Move|
            legal_or_none(request_board(fen), m) && r.best_move@ == move_text(m) && (m == MOVE_NONE ==> r.score == -INF),
        reply matches Some(r) ==> -SCORE_BOUND <= r.score <= SCORE_BOUND && 0 <= r.depth <= max_depth_for(
            match level { Some(l) => l, None => DEFAULT_LEVEL },
        ),
        // A checkmated side gets no move, after one node at depth 1, when the
        // clock never runs a whole time limit between two readings.
        msg_type@ == "search"@ && mated_root(request_board(fen), match time { Some(t) => t, None => DEFAULT_MOVETIME }, clock)
            ==> (reply matches Some(r) && r.best_move@ == move_text(MOVE_NONE) && r.score == -INF && r.depth == 1
            && r.nodes == 1),
        // A side that can mate in one gets a legal move.
        msg_type@ == "search"@ && mate_in_one_root(request_board(fen), match time { Some(t) => t, None => DEFAULT_MOVETIME }, clock)
            ==> (reply matches Some(r) && exists|m: Move| #[trigger] spec_legal_moves(request_board(fen)).contains(m)
            && r.best_move@ == move_text(m)),
{
    if !str_eq(msg_type, "search") {
        return None;
    }
    let mut board = match fen {
        Some(f) => {
            let b = Board::from_fen(f);
            proof {
                crate::lemma_reads_fen_view(b, f@);
            }
            b
        },
        None => crate::uci::new_empty_board(),
    };
    let ghost b0 = board@;
    let (movetime, difficulty) = request_params(time, level);
    let (best_move, score, depth, nodes) = search_best_move(&mut board, movetime, difficulty, state, phase, lmr, clock);
    proof {
        lemma_moves_on_board(b0);
        if best_move != MOVE_NONE {
            let k = choose|k: int| 0 <= k < spec_legal_moves(b0).len() && spec_legal_moves(b0)[k] == best_move;
            assert(on_board_move(spec_legal_moves(b0)[k]));
        }
    }
    let text = move_to_string(best_move, &board);
    Some(SearchReply { score, nodes, depth, best_move: text })
}

/// Text equality.
fn str_eq(a: &str, b: &str) -> (r: bool)
    ensures
        r == (a@ == b@),
{
    let x = crate::board::chars_of(a);
    let y = crate::board::chars_of(b);
    if x.len() != y.len() {
        return false;
    }
    let mut i: usize = 0;
    while i < x.len()
        invariant
            x@ == a@,
            y@ == b@,
            x@.len() == y@.len(),
            i <= x@.len(),
            forall|k: int| 0 <= k < i ==> x@[k] == y@[k],
        decreases x@.len() - i,
    {
        if x[i] != y[i] {
            return false;
        }
        i += 1;
    }
    assert(x@ =~= y@);
    true
}

} // verus!
