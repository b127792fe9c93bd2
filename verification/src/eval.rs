use vstd::prelude::*;
use crate::types::{
    Color, Piece, sq, spec_sq, MAILBOX_SIZE, ADVISOR_DIRS, CAMEL_DIRS, ELEPHANT_DIRS, KING_DIRS,
    KNIGHT_DIRS, MINISTER_DIRS, ROOK_DIRS, WARENGINE_DIRS,
};
use crate::board::{
    is_off_board, on_board, main_square, file_brd, rank_brd, spec_file_brd, spec_rank_brd,
    scan_square, lemma_scan_index, lemma_sq_coords, lemma_king_square, Board, BoardView,
};
use crate::attack::{is_attacked, attacked, spec_step, step, ray_measure};

verus! {

// ─── Material values (centipawns) ────────────────────────────────

/// Piece material values indexed by Piece kind_index
/// Rook=0, Knight=1, Catapult=2, Giraffe=3, Minister=4, King=5, Advisor=6, Elephant=7, Camel=8, Warengine=9, Pawn=10
pub const MATERIAL: [i32; 11] = [
    500,  // Rook (orthogonal slider — most powerful non-royal)
    325,  // Knight (2,1 leaper — strong in open positions)
    300,  // Catapult/Picket (diagonal slider, min 2 range)
    300,  // Giraffe (4,1 bent rider — complex but powerful)
    150,  // Minister (Ferz: 1 diagonal — weak piece)
    0,    // King — NEVER count in eval (always on board, counting causes phantom scores)
    150,  // Advisor (Wazir: 1 orthogonal — weak piece)
    160,  // Elephant (Alfil: 1-2 diagonal jump — somewhat weak)
    160,  // Camel (3,1 leaper — colorbound but decent)
    140,  // Warengine (Dabbaba: 2 orthogonal jump — limited)
    100,  // Pawn
];

// ─── Piece-Square Tables (10 ranks × 11 files = 110 entries) ─────

/// PST for pawns — strongly encourage center pawn advancement
pub const PST_PAWN_WHITE: [i32; 110] = [
    0,  0,  0,  0,  0,  0,  0,  0,  0,  0,  0,  // rank 1 (start)
    5,  5, 10, 15, 20, 20, 20, 15, 10,  5,  5,  // rank 2 — center pawns get bonus for being ready
   10, 15, 20, 30, 35, 40, 35, 30, 20, 15, 10,  // rank 3 — big reward for center advance!
   15, 20, 25, 35, 45, 50, 45, 35, 25, 20, 15,  // rank 4 — controlling center is great
   20, 25, 30, 40, 50, 55, 50, 40, 30, 25, 20,  // rank 5 — deep center control
   25, 30, 35, 45, 55, 60, 55, 45, 35, 30, 25,  // rank 6
   30, 35, 40, 50, 60, 65, 60, 50, 40, 35, 30,  // rank 7
   40, 45, 50, 60, 65, 70, 65, 60, 50, 45, 40,  // rank 8
   50, 55, 60, 70, 75, 80, 75, 70, 60, 55, 50,  // rank 9
   60, 65, 70, 80, 85, 90, 85, 80, 70, 65, 60,  // rank 10 (promotion)
];

/// PST for knights — centralized is better
pub const PST_KNIGHT: [i32; 110] = [
   -20,-10, -5, -5, -5, -5, -5, -5, -5,-10,-20,
   -10,  0,  5,  5, 10, 10, 10,  5,  5,  0,-10,
    -5,  5, 10, 15, 15, 20, 15, 15, 10,  5, -5,
    -5,  5, 15, 20, 25, 25, 25, 20, 15,  5, -5,
    -5, 10, 15, 25, 30, 30, 30, 25, 15, 10, -5,
    -5, 10, 15, 25, 30, 30, 30, 25, 15, 10, -5,
    -5,  5, 15, 20, 25, 25, 25, 20, 15,  5, -5,
    -5,  5, 10, 15, 15, 20, 15, 15, 10,  5, -5,
   -10,  0,  5,  5, 10, 10, 10,  5,  5,  0,-10,
   -20,-10, -5, -5, -5, -5, -5, -5, -5,-10,-20,
];

/// PST for rooks — favor open files and 7th rank
pub const PST_ROOK: [i32; 110] = [
    0,  0,  5, 10, 10, 10, 10, 10,  5,  0,  0,
    0,  0,  5, 10, 10, 10, 10, 10,  5,  0,  0,
   -5,  0,  5, 10, 10, 10, 10, 10,  5,  0, -5,
   -5,  0,  5, 10, 10, 10, 10, 10,  5,  0, -5,
   -5,  0,  5, 10, 10, 10, 10, 10,  5,  0, -5,
   -5,  0,  5, 10, 15, 15, 15, 10,  5,  0, -5,
   -5,  0,  5, 10, 15, 15, 15, 10,  5,  0, -5,
    5, 10, 15, 20, 20, 20, 20, 20, 15, 10,  5, // 7th rank bonus
    5, 10, 15, 20, 20, 20, 20, 20, 15, 10,  5,
    0,  0,  5, 10, 10, 10, 10, 10,  5,  0,  0,
];

/// PST for king — stay safe (back rank, away from center)
pub const PST_KING: [i32; 110] = [
    20, 30, 10,  0,  0,-10,  0,  0, 10, 30, 20,
    20, 20,  0,-10,-10,-20,-10,-10,  0, 20, 20,
   -10,-20,-20,-30,-30,-30,-30,-30,-20,-20,-10,
   -20,-30,-30,-40,-40,-40,-40,-40,-30,-30,-20,
   -30,-40,-40,-50,-50,-50,-50,-50,-40,-40,-30,
   -30,-40,-40,-50,-50,-50,-50,-50,-40,-40,-30,
   -20,-30,-30,-40,-40,-40,-40,-40,-30,-30,-20,
   -10,-20,-20,-30,-30,-30,-30,-30,-20,-20,-10,
    20, 20,  0,-10,-10,-20,-10,-10,  0, 20, 20,
    20, 30, 10,  0,  0,-10,  0,  0, 10, 30, 20,
];

/// PST for camel — penalize early development, reward staying on back ranks
/// Camel is colorbound (3,1 leaper): don't rush it to center in the opening
pub const PST_CAMEL: [i32; 110] = [
    15, 10, 10, 10,  5,  5,  5, 10, 10, 10, 15,  // rank 1 — bonus for starting position
    10,  5,  5,  0,  0,  0,  0,  0,  5,  5, 10,  // rank 2 — still okay on back ranks
     0,  0, -5, -5,-10,-10,-10, -5, -5,  0,  0,  // rank 3 — penalize early center approach
    -5, -5,-10,-15,-20,-20,-20,-15,-10, -5, -5,  // rank 4 — strong penalty in center
    -5, -5,-10,-10,-15,-15,-15,-10,-10, -5, -5,  // rank 5 — still somewhat bad
     0,  0, -5, -5, -5, -5, -5, -5, -5,  0,  0,  // rank 6 — neutral as game progresses
     5,  5,  0,  5,  5,  5,  5,  5,  0,  5,  5,  // rank 7 — okay in midgame
    10,  5,  5, 10, 10, 10, 10, 10,  5,  5, 10,  // rank 8 — good for invasion
    10,  5,  5,  0,  0,  0,  0,  0,  5,  5, 10,  // rank 9
    15, 10, 10, 10,  5,  5,  5, 10, 10, 10, 15,  // rank 10
];

/// Generic piece PST — slight center preference (lowered to avoid artificial rushing)
pub const PST_GENERIC: [i32; 110] = [
   -10, -5, -5,  0,  0,  0,  0,  0, -5, -5,-10,
    -5,  0,  5,  0,  0,  0,  0,  0,  5,  0, -5,
    -5,  0,  0,  5,  5,  5,  5,  5,  0,  0, -5,
     0,  0,  5, 10, 10, 10, 10, 10,  5,  0,  0,
     0,  0,  5, 10, 10, 10, 10, 10,  5,  0,  0,
     0,  0,  5, 10, 10, 10, 10, 10,  5,  0,  0,
     0,  0,  5, 10, 10, 10, 10, 10,  5,  0,  0,
    -5,  0,  0,  5,  5,  5,  5,  5,  0,  0, -5,
    -5,  0,  5,  0,  0,  0,  0,  0,  5,  0, -5,
   -10, -5, -5,  0,  0,  0,  0,  0, -5, -5,-10,
];


/// Every square-table entry lies within [-50, 90].
pub proof fn lemma_pst_bounds()
    ensures
        forall|i: int| 0 <= i < 110 ==> -50 <= #[trigger] PST_PAWN_WHITE@[i] <= 90,
        forall|i: int| 0 <= i < 110 ==> -50 <= #[trigger] PST_KNIGHT@[i] <= 90,
        forall|i: int| 0 <= i < 110 ==> -50 <= #[trigger] PST_ROOK@[i] <= 90,
        forall|i: int| 0 <= i < 110 ==> -50 <= #[trigger] PST_KING@[i] <= 90,
        forall|i: int| 0 <= i < 110 ==> -50 <= #[trigger] PST_CAMEL@[i] <= 90,
        forall|i: int| 0 <= i < 110 ==> -50 <= #[trigger] PST_GENERIC@[i] <= 90,
        forall|i: int| 0 <= i < 11 ==> 0 <= #[trigger] MATERIAL@[i] <= 500,
{
}

/// Table index of (file, rank), mirrored for Black.
pub open spec fn spec_pst_index(file: int, rank: int, is_white: bool) -> int {
    let r = if is_white { rank - 1 } else { 10 - rank };
    r * 11 + file - 1
}

fn pst_index(file: i32, rank: i32, is_white: bool) -> (i: usize)
    requires
        1 <= file <= 11,
        1 <= rank <= 10,
    ensures
        i == spec_pst_index(file as int, rank as int, is_white),
        i < 110,
{
    let r = if is_white { rank - 1 } else { 10 - rank };
    let f = file - 1;
    (r * 11 + f) as usize
}

/// Square-table bonus of a piece on (file, rank): Rook, Knight, royal, Camel and
/// pawn tables, a generic table for the rest.
pub open spec fn pst_value(piece: Piece, file: int, rank: int) -> int {
    let idx = spec_pst_index(file, rank, piece.white());
    if idx < 0 || idx >= 110 {
        0
    } else {
        match piece.kind() {
            0 => PST_ROOK@[idx] as int,
            1 => PST_KNIGHT@[idx] as int,
            5 => PST_KING@[idx] as int,
            8 => PST_CAMEL@[idx] as int,
            10 => PST_PAWN_WHITE@[idx] as int,
            _ => PST_GENERIC@[idx] as int,
        }
    }
}

/// The square tables are written from White's side and read mirrored for
/// Black: a Black piece's table entry on (file, rank) is the one a White piece
/// of the same kind has on (file, 11 - rank), the same square seen from the
/// other end of the board.
pub proof fn lemma_pst_mirror(file: int, rank: int)
    requires
        1 <= file <= 11,
        1 <= rank <= 10,
    ensures
        spec_pst_index(file, rank, false) == spec_pst_index(file, 11 - rank, true),
        0 <= spec_pst_index(file, rank, true) < 110,
        0 <= spec_pst_index(file, rank, false) < 110,
{
}

/// A Black piece gets the square bonus of the White piece of its kind on the
/// vertically mirrored square.
pub proof fn lemma_pst_value_mirror(white: Piece, black: Piece, file: int, rank: int)
    requires
        1 <= file <= 11,
        1 <= rank <= 10,
        white.white(),
        !black.white(),
        white.kind() == black.kind(),
    ensures
        pst_value(black, file, rank) == pst_value(white, file, 11 - rank),
{
    lemma_pst_mirror(file, rank);
}

fn get_pst(piece: Piece, file: i32, rank: i32) -> (v: i32)
    requires
        1 <= file <= 11,
        1 <= rank <= 10,
    ensures
        v == pst_value(piece, file as int, rank as int),
        -50 <= v <= 90,
{
    proof {
        lemma_pst_bounds();
    }
    let is_white = piece.is_white();
    let idx = pst_index(file, rank, is_white);
    if idx >= 110 {
        return 0;
    }
    let kind = piece.kind_index();
    match kind {
        0 => PST_ROOK[idx],
        1 => PST_KNIGHT[idx],
        5 => PST_KING[idx],
        8 => PST_CAMEL[idx],
        10 => PST_PAWN_WHITE[idx],
        _ => PST_GENERIC[idx],
    }
}

// ─── Scan helpers ───────────────────────────────────────────────

/// File and rank of the k-th scanned square.
pub open spec fn scan_file(k: int) -> int {
    k % 11 + 1
}

pub open spec fn scan_rank(k: int) -> int {
    k / 11 + 1
}

/// Material plus square-table value of the k-th scanned square, positive for
/// White, negative for Black, zero when empty.
pub open spec fn mat_pst_at(pieces: Seq<Piece>, k: int) -> int {
    let p = pieces[scan_square(k)];
    if p == Piece::Empty {
        0
    } else {
        let v = MATERIAL@[p.kind() as int] + pst_value(p, scan_file(k), scan_rank(k));
        if p.white() { v } else { -v }
    }
}

/// Material and square tables over the first `n` scanned squares.
pub open spec fn mat_pst_sum(pieces: Seq<Piece>, n: int) -> int
    decreases n,
{
    if n <= 0 {
        0
    } else {
        mat_pst_sum(pieces, n - 1) + mat_pst_at(pieces, n - 1)
    }
}

fn material_and_pst(board: &Board) -> (score: i32)
    ensures
        score == mat_pst_sum(board@.pieces, 110),
        -590 * 110 <= score <= 590 * 110,
{
    proof {
        lemma_pst_bounds();
    }
    let mut score: i32 = 0;
    let mut rank: i32 = 1;
    while rank <= 10
        invariant
            1 <= rank <= 11,
            score == mat_pst_sum(board@.pieces, (rank - 1) * 11),
            -590 * ((rank - 1) * 11) <= score <= 590 * ((rank - 1) * 11),
        decreases 11 - rank,
    {
        let mut file: i32 = 1;
        while file <= 11
            invariant
                1 <= rank <= 10,
                1 <= file <= 12,
                score == mat_pst_sum(board@.pieces, (rank - 1) * 11 + file - 1),
                -590 * ((rank - 1) * 11 + file - 1) <= score <= 590 * ((rank - 1) * 11 + file - 1),
            decreases 12 - file,
        {
            proof {
                lemma_scan_index(file as int, rank as int);
                lemma_pst_bounds();
            }
            let s = sq(file, rank);
            let p = board.pieces[s];
            if p != Piece::Empty {
                let mat = MATERIAL[p.kind_index()];
                let pst = get_pst(p, file, rank);
                let value = mat + pst;
                if p.is_white() {
                    score = score + value;
                } else {
                    score = score - value;
                }
            }
            file += 1;
        }
        rank += 1;
    }
    score
}


// ─── Mobility ───────────────────────────────────────────────────

/// Number of consecutive empty playing squares on the ray from `t` by `d`.
pub open spec fn empty_run(pieces: Seq<Piece>, t: int, d: int) -> int
    decreases ray_measure(t, d),
{
    if d == 0 || !on_board(t) || pieces[t] != Piece::Empty {
        0
    } else {
        1 + empty_run(pieces, spec_step(t, d), d)
    }
}

/// The square where that run ends (off the board or occupied).
pub open spec fn run_end(pieces: Seq<Piece>, t: int, d: int) -> int
    decreases ray_measure(t, d),
{
    if d == 0 || !on_board(t) || pieces[t] != Piece::Empty {
        t
    } else {
        run_end(pieces, spec_step(t, d), d)
    }
}

/// `q` belongs to the side opposite `p`.
pub open spec fn opposes(p: Piece, q: Piece) -> bool {
    (p.white() && q.black()) || (p.black() && q.white())
}

/// Mobility of `p` on `s` in direction `d`: for a slider the empty squares plus
/// one for an enemy piece ending the run; for a leaper one if the target is a
/// playing square that is empty or holds an enemy piece.
pub open spec fn dir_mobility(pieces: Seq<Piece>, s: int, p: Piece, d: int, slider: bool) -> int {
    if slider {
        let t = spec_step(s, d);
        let e = run_end(pieces, t, d);
        empty_run(pieces, t, d) + (if on_board(e) && opposes(p, pieces[e]) { 1int } else { 0int })
    } else {
        let t = spec_step(s, d);
        if on_board(t) && (pieces[t] == Piece::Empty || opposes(p, pieces[t])) { 1 } else { 0 }
    }
}

pub open spec fn dirs_mobility(pieces: Seq<Piece>, s: int, p: Piece, dirs: Seq<i32>, n: int, slider: bool) -> int
    decreases n,
{
    if n <= 0 {
        0
    } else {
        dirs_mobility(pieces, s, p, dirs, n - 1, slider) + dir_mobility(pieces, s, p, dirs[n - 1] as int, slider)
    }
}

/// Mobility of a non-pawn piece; the Giraffe counts a flat 4.
pub open spec fn piece_mobility(pieces: Seq<Piece>, s: int, p: Piece) -> int {
    match p {
        Piece::WRook | Piece::BRook => dirs_mobility(pieces, s, p, ROOK_DIRS@, 4, true),
        Piece::WKnight | Piece::BKnight => dirs_mobility(pieces, s, p, KNIGHT_DIRS@, 8, false),
        Piece::WKing | Piece::BKing | Piece::WPrince | Piece::BPrince | Piece::WAdKing | Piece::BAdKing =>
            dirs_mobility(pieces, s, p, KING_DIRS@, 8, false),
        Piece::WMinister | Piece::BMinister => dirs_mobility(pieces, s, p, MINISTER_DIRS@, 4, false),
        Piece::WAdvisor | Piece::BAdvisor => dirs_mobility(pieces, s, p, ADVISOR_DIRS@, 4, false),
        Piece::WCamel | Piece::BCamel => dirs_mobility(pieces, s, p, CAMEL_DIRS@, 8, false),
        Piece::WWarengine | Piece::BWarengine => dirs_mobility(pieces, s, p, WARENGINE_DIRS@, 4, false),
        Piece::WElephant | Piece::BElephant => dirs_mobility(pieces, s, p, ELEPHANT_DIRS@, 8, false),
        Piece::WCatapult | Piece::BCatapult => dirs_mobility(pieces, s, p, MINISTER_DIRS@, 4, true),
        Piece::WGiraffe | Piece::BGiraffe => 4,
        _ => 0,
    }
}

/// Mobility of the side's non-pawn pieces over the first `n` scanned squares.
pub open spec fn side_mobility(pieces: Seq<Piece>, white: bool, n: int) -> int
    decreases n,
{
    if n <= 0 {
        0
    } else {
        let p = pieces[scan_square(n - 1)];
        side_mobility(pieces, white, n - 1) + (if p != Piece::Empty && !p.pawn() && p.white()
            == white {
            piece_mobility(pieces, scan_square(n - 1), p)
        } else {
            0
        })
    }
}

/// Three points per move of difference in mobility.
pub open spec fn spec_mobility(pieces: Seq<Piece>) -> int {
    (side_mobility(pieces, true, 110) - side_mobility(pieces, false, 110)) * 3
}

proof fn lemma_empty_run_bound(pieces: Seq<Piece>, t: int, d: int)
    ensures
        0 <= empty_run(pieces, t, d) <= ray_measure(t, d),
    decreases ray_measure(t, d),
{
    if d != 0 && on_board(t) && pieces[t] == Piece::Empty {
        lemma_empty_run_bound(pieces, spec_step(t, d), d);
    }
}

/// Counts one direction's mobility.
fn direction_mobility(board: &Board, s: usize, p: Piece, d: i32, slider: bool) -> (count: i32)
    requires
        s < MAILBOX_SIZE,
        -100 <= d <= 100,
        d != 0,
    ensures
        count == dir_mobility(board@.pieces, s as int, p, d as int, slider),
        0 <= count <= 300,
{
    if slider {
        let start = step(s, d);
        proof {
            lemma_empty_run_bound(board@.pieces, start as int, d as int);
        }
        let mut ts = start;
        let mut count: i32 = 0;
        while !is_off_board(ts) && board.pieces[ts] == Piece::Empty
            invariant
                -100 <= d <= 100,
                d != 0,
                start < 400 || start == usize::MAX,
                count + empty_run(board@.pieces, ts as int, d as int) == empty_run(board@.pieces, start as int, d as int),
                run_end(board@.pieces, ts as int, d as int) == run_end(board@.pieces, start as int, d as int),
                0 <= count,
                empty_run(board@.pieces, start as int, d as int) <= 270,
            decreases ray_measure(ts as int, d as int),
        {
            proof {
                lemma_empty_run_bound(board@.pieces, ts as int, d as int);
            }
            count += 1;
            ts = step(ts, d);
        }
        if !is_off_board(ts) {
            let target_piece = board.pieces[ts];
            if (p.is_white() && target_piece.is_black()) || (p.is_black() && target_piece.is_white()) {
                count += 1;
            }
        }
        count
    } else {
        let ts = step(s, d);
        if !is_off_board(ts) {
            let target_piece = board.pieces[ts];
            if target_piece == Piece::Empty || (p.is_white() && target_piece.is_black()) || (p.is_black()
                && target_piece.is_white()) {
                return 1;
            }
        }
        0
    }
}

fn dirs_mobility_exec(board: &Board, s: usize, p: Piece, dirs: &[i32], slider: bool) -> (count: i32)
    requires
        s < MAILBOX_SIZE,
        dirs@.len() <= 8,
        forall|i: int| 0 <= i < dirs@.len() ==> -100 <= #[trigger] dirs@[i] <= 100 && dirs@[i] != 0,
    ensures
        count == dirs_mobility(board@.pieces, s as int, p, dirs@, dirs@.len() as int, slider),
        0 <= count <= 300 * 8,
{
    let mut count: i32 = 0;
    let mut i: usize = 0;
    while i < dirs.len()
        invariant
            s < MAILBOX_SIZE,
            i <= dirs@.len(),
            dirs@.len() <= 8,
            forall|i: int| 0 <= i < dirs@.len() ==> -100 <= #[trigger] dirs@[i] <= 100 && dirs@[i] != 0,
            count == dirs_mobility(board@.pieces, s as int, p, dirs@, i as int, slider),
            0 <= count <= 300 * i,
        decreases dirs@.len() - i,
    {
        let c = direction_mobility(board, s, p, dirs[i], slider);
        count = count + c;
        i += 1;
    }
    count
}

fn piece_mobility_exec(board: &Board, s: usize, p: Piece) -> (count: i32)
    requires
        s < MAILBOX_SIZE,
    ensures
        count == piece_mobility(board@.pieces, s as int, p),
        0 <= count <= 300 * 8,
{
    match p {
        Piece::WRook | Piece::BRook => dirs_mobility_exec(board, s, p, &ROOK_DIRS, true),
        Piece::WKnight | Piece::BKnight => dirs_mobility_exec(board, s, p, &KNIGHT_DIRS, false),
        Piece::WKing | Piece::BKing | Piece::WPrince | Piece::BPrince | Piece::WAdKing | Piece::BAdKing =>
            dirs_mobility_exec(board, s, p, &KING_DIRS, false),
        Piece::WMinister | Piece::BMinister => dirs_mobility_exec(board, s, p, &MINISTER_DIRS, false),
        Piece::WAdvisor | Piece::BAdvisor => dirs_mobility_exec(board, s, p, &ADVISOR_DIRS, false),
        Piece::WCamel | Piece::BCamel => dirs_mobility_exec(board, s, p, &CAMEL_DIRS, false),
        Piece::WWarengine | Piece::BWarengine => dirs_mobility_exec(board, s, p, &WARENGINE_DIRS, false),
        Piece::WElephant | Piece::BElephant => dirs_mobility_exec(board, s, p, &ELEPHANT_DIRS, false),
        Piece::WCatapult | Piece::BCatapult => dirs_mobility_exec(board, s, p, &MINISTER_DIRS, true),
        Piece::WGiraffe | Piece::BGiraffe => 4,
        _ => 0,
    }
}

/// Mobility term: three points per reachable square, White minus Black.
fn mobility_estimate(board: &Board) -> (score: i32)
    ensures
        score == spec_mobility(board@.pieces),
        -2400 * 110 * 3 <= score <= 2400 * 110 * 3,
{
    let mut white_mobility: i32 = 0;
    let mut black_mobility: i32 = 0;
    let mut rank: i32 = 1;
    while rank <= 10
        invariant
            1 <= rank <= 11,
            white_mobility == side_mobility(board@.pieces, true, (rank - 1) * 11),
            black_mobility == side_mobility(board@.pieces, false, (rank - 1) * 11),
            0 <= white_mobility <= 2400 * ((rank - 1) * 11),
            0 <= black_mobility <= 2400 * ((rank - 1) * 11),
        decreases 11 - rank,
    {
        let mut file: i32 = 1;
        while file <= 11
            invariant
                1 <= rank <= 10,
                1 <= file <= 12,
                white_mobility == side_mobility(board@.pieces, true, (rank - 1) * 11 + file - 1),
                black_mobility == side_mobility(board@.pieces, false, (rank - 1) * 11 + file - 1),
                0 <= white_mobility <= 2400 * ((rank - 1) * 11 + file - 1),
                0 <= black_mobility <= 2400 * ((rank - 1) * 11 + file - 1),
            decreases 12 - file,
        {
            proof {
                lemma_scan_index(file as int, rank as int);
            }
            let s = sq(file, rank);
            let p = board.pieces[s];
            if p != Piece::Empty && !p.is_pawn() {
                let count = piece_mobility_exec(board, s, p);
                if p.is_white() {
                    white_mobility += count;
                } else {
                    black_mobility += count;
                }
            }
            file += 1;
        }
        rank += 1;
    }
    (white_mobility - black_mobility) * 3
}


// ─── King safety ────────────────────────────────────────────────

/// Squares around `k` holding a piece of the given side, over the first `n` king directions.
pub open spec fn shield_count(pieces: Seq<Piece>, k: int, white: bool, n: int) -> int
    decreases n,
{
    if n <= 0 {
        0
    } else {
        let t = spec_step(k, KING_DIRS@[n - 1] as int);
        shield_count(pieces, k, white, n - 1) + (if on_board(t) && (if white {
            pieces[t].white()
        } else {
            pieces[t].black()
        }) {
            1int
        } else {
            0int
        })
    }
}

/// Safety of one royal square, from that side's point of view: -30 on ranks
/// 4..7, -15 on files 1, 2, 10, 11, +10 per adjacent friendly piece.
pub open spec fn royal_safety(pieces: Seq<Piece>, k: int, white: bool) -> int {
    let r = spec_rank_brd(k);
    let f = spec_file_brd(k);
    (if 4 <= r <= 7 { -30int } else { 0int }) + (if f <= 2 || f >= 10 { -15int } else { 0int })
        + 10 * shield_count(pieces, k, white, 8)
}

/// King safety, White's minus Black's.
pub open spec fn spec_king_safety(b: BoardView) -> int {
    (match b.king_square(Color::White) {
        Some(wk) => royal_safety(b.pieces, wk as int, true),
        None => 0,
    }) - (match b.king_square(Color::Black) {
        Some(bk) => royal_safety(b.pieces, bk as int, false),
        None => 0,
    })
}

fn shield(board: &Board, k: usize, white: bool) -> (n: i32)
    requires
        k < MAILBOX_SIZE,
    ensures
        n == shield_count(board@.pieces, k as int, white, 8),
        0 <= n <= 8,
{
    let mut n: i32 = 0;
    let mut i: usize = 0;
    while i < 8
        invariant
            k < MAILBOX_SIZE,
            i <= 8,
            n == shield_count(board@.pieces, k as int, white, i as int),
            0 <= n <= i,
        decreases 8 - i,
    {
        let ts = step(k, KING_DIRS[i]);
        if !is_off_board(ts) && (if white { board.pieces[ts].is_white() } else { board.pieces[ts].is_black() }) {
            n += 1;
        }
        i += 1;
    }
    n
}

fn royal_safety_exec(board: &Board, k: usize, white: bool) -> (score: i32)
    requires
        k < MAILBOX_SIZE,
    ensures
        score == royal_safety(board@.pieces, k as int, white),
        -45 <= score <= 80,
{
    let r = rank_brd(k);
    let f = file_brd(k);
    let mut score: i32 = 0;
    if r >= 4 && r <= 7 {
        score -= 30;
    }
    if f <= 2 || f >= 10 {
        score -= 15;
    }
    score + shield(board, k, white) * 10
}

fn king_safety(board: &Board) -> (score: i32)
    requires
        board@.wf(),
    ensures
        score == spec_king_safety(board@),
        -125 <= score <= 125,
{
    let mut score: i32 = 0;
    proof {
        lemma_king_square(board@, Color::White);
        lemma_king_square(board@, Color::Black);
    }
    if let Some(wk) = board.king_sq(Color::White) {
        score += royal_safety_exec(board, wk, true);
    }
    if let Some(bk) = board.king_sq(Color::Black) {
        score -= royal_safety_exec(board, bk, false);
    }
    score
}

// ─── Development ────────────────────────────────────────────────

/// Pawns of the side on files 4..=8 of `rank`, counting files below `upto`.
pub open spec fn center_pawns(pieces: Seq<Piece>, rank: int, white: bool, upto: int) -> int
    decreases upto - 4,
{
    if upto <= 4 {
        0
    } else {
        let p = pieces[spec_sq(upto - 1, rank)];
        center_pawns(pieces, rank, white, upto - 1) + (if p.pawn() && (if white {
            p.white()
        } else {
            p.black()
        }) {
            1int
        } else {
            0int
        })
    }
}

/// Developed pieces of a side (not pawns, not royal) among scanned squares `lo..n`.
pub open spec fn developed(pieces: Seq<Piece>, white: bool, lo: int, n: int) -> int
    decreases n - lo,
{
    if n <= lo {
        0
    } else {
        let p = pieces[scan_square(n - 1)];
        developed(pieces, white, lo, n - 1) + (if p != Piece::Empty && !p.pawn() && !p.king_type()
            && (if white {
            p.white()
        } else {
            p.black()
        }) {
            1int
        } else {
            0int
        })
    }
}

/// In the first 20 plies, 15 points per developed piece while three or more
/// centre pawns still stand on their home rank; White's penalty minus Black's.
pub open spec fn spec_development(b: BoardView) -> int {
    if b.ply > 20 {
        0
    } else {
        let wc = center_pawns(b.pieces, 3, true, 9);
        let wd = developed(b.pieces, true, 22, 110);
        let bc = center_pawns(b.pieces, 8, false, 9);
        let bd = developed(b.pieces, false, 0, 88);
        (if wc >= 3 && wd > 0 { -15 * wd } else { 0 }) + (if bc >= 3 && bd > 0 { 15 * bd } else { 0 })
    }
}

fn count_center_pawns(board: &Board, rank: i32, white: bool) -> (n: i32)
    requires
        rank == 3 || rank == 8,
    ensures
        n == center_pawns(board@.pieces, rank as int, white, 9),
        0 <= n <= 5,
{
    let mut n: i32 = 0;
    let mut file: i32 = 4;
    while file <= 8
        invariant
            rank == 3 || rank == 8,
            4 <= file <= 9,
            n == center_pawns(board@.pieces, rank as int, white, file as int),
            0 <= n <= file - 4,
        decreases 9 - file,
    {
        proof {
            lemma_sq_coords(file as int, rank as int);
        }
        let s = sq(file, rank);
        let p = board.pieces[s];
        if p.is_pawn() && (if white { p.is_white() } else { p.is_black() }) {
            n += 1;
        }
        file += 1;
    }
    n
}

fn count_developed(board: &Board, white: bool, lo_rank: i32, hi_rank: i32) -> (n: i32)
    requires
        1 <= lo_rank <= hi_rank <= 10,
    ensures
        n == developed(board@.pieces, white, (lo_rank - 1) * 11, hi_rank * 11),
        0 <= n <= 110,
{
    let mut n: i32 = 0;
    let mut rank = lo_rank;
    while rank <= hi_rank
        invariant
            1 <= lo_rank <= rank <= hi_rank + 1,
            hi_rank <= 10,
            n == developed(board@.pieces, white, (lo_rank - 1) * 11, (rank - 1) * 11),
            0 <= n <= (rank - lo_rank) * 11,
        decreases hi_rank + 1 - rank,
    {
        let mut file: i32 = 1;
        while file <= 11
            invariant
                1 <= lo_rank <= rank <= hi_rank,
                hi_rank <= 10,
                1 <= file <= 12,
                n == developed(board@.pieces, white, (lo_rank - 1) * 11, (rank - 1) * 11 + file - 1),
                0 <= n <= (rank - lo_rank) * 11 + file - 1,
            decreases 12 - file,
        {
            proof {
                lemma_scan_index(file as int, rank as int);
            }
            let s = sq(file, rank);
            let p = board.pieces[s];
            if p != Piece::Empty && !p.is_pawn() && !p.is_king_type() && (if white {
                p.is_white()
            } else {
                p.is_black()
            }) {
                n += 1;
            }
            file += 1;
        }
        rank += 1;
    }
    n
}

fn development_penalty(board: &Board) -> (score: i32)
    ensures
        score == spec_development(board@),
        -1650 <= score <= 1650,
{
    if board.ply > 20 {
        return 0;
    }
    let mut score: i32 = 0;
    let w_center_pawns_unmoved = count_center_pawns(board, 3, true);
    let w_pieces_developed = count_developed(board, true, 3, 10);
    if w_center_pawns_unmoved >= 3 && w_pieces_developed > 0 {
        score -= w_pieces_developed * 15;
    }
    let b_center_pawns_unmoved = count_center_pawns(board, 8, false);
    let b_pieces_developed = count_developed(board, false, 1, 8);
    if b_center_pawns_unmoved >= 3 && b_pieces_developed > 0 {
        score += b_pieces_developed * 15;
    }
    score
}

/// A pawn of `by_color` attacks `sq_idx` (White pawns from 14 and 16 below, Black from above).
pub open spec fn pawn_attacks(pieces: Seq<Piece>, s: int, white: bool) -> bool {
    if white {
        (on_board(spec_step(s, -14)) && pieces[spec_step(s, -14)].pawn() && pieces[spec_step(s, -14)].white())
            || (on_board(spec_step(s, -16)) && pieces[spec_step(s, -16)].pawn() && pieces[spec_step(s, -16)].white())
    } else {
        (on_board(spec_step(s, 14)) && pieces[spec_step(s, 14)].pawn() && pieces[spec_step(s, 14)].black())
            || (on_board(spec_step(s, 16)) && pieces[spec_step(s, 16)].pawn() && pieces[spec_step(s, 16)].black())
    }
}

/// Is `sq_idx` attacked by a pawn of `by_color`?
pub fn is_pawn_attacking(board: &Board, sq_idx: usize, by_color: Color) -> (r: bool)
    requires
        sq_idx < MAILBOX_SIZE,
    ensures
        r == pawn_attacks(board@.pieces, sq_idx as int, by_color == Color::White),
{
    if by_color == Color::White {
        let s1 = step(sq_idx, -14);
        let s2 = step(sq_idx, -16);
        if !is_off_board(s1) {
            let p = board.pieces[s1];
            if p.is_pawn() && p.is_white() {
                return true;
            }
        }
        if !is_off_board(s2) {
            let p = board.pieces[s2];
            if p.is_pawn() && p.is_white() {
                return true;
            }
        }
    } else {
        let s1 = step(sq_idx, 14);
        let s2 = step(sq_idx, 16);
        if !is_off_board(s1) {
            let p = board.pieces[s1];
            if p.is_pawn() && p.is_black() {
                return true;
            }
        }
        if !is_off_board(s2) {
            let p = board.pieces[s2];
            if p.is_pawn() && p.is_black() {
                return true;
            }
        }
    }
    false
}


// ─── Pawn structure ─────────────────────────────────────────────

/// A pawn of the given side.
pub open spec fn side_pawn(p: Piece, white: bool) -> bool {
    p.pawn() && (if white { p.white() } else { p.black() })
}

/// Pawns of a side on `file`, ranks 1..=r.
pub open spec fn pawns_on_file(pieces: Seq<Piece>, file: int, white: bool, r: int) -> int
    decreases r,
{
    if r <= 0 {
        0
    } else {
        pawns_on_file(pieces, file, white, r - 1) + (if side_pawn(pieces[spec_sq(file, r)], white) {
            1int
        } else {
            0int
        })
    }
}

/// Highest rank (within 1..=r) of a White pawn on `file`, 0 if none.
pub open spec fn most_advanced_white(pieces: Seq<Piece>, file: int, r: int) -> int
    decreases r,
{
    if r <= 0 {
        0
    } else {
        let prev = most_advanced_white(pieces, file, r - 1);
        if side_pawn(pieces[spec_sq(file, r)], true) && r > prev { r } else { prev }
    }
}

/// Lowest rank (within 1..=r) of a Black pawn on `file`, 11 if none.
pub open spec fn most_advanced_black(pieces: Seq<Piece>, file: int, r: int) -> int
    decreases r,
{
    if r <= 0 {
        11
    } else {
        let prev = most_advanced_black(pieces, file, r - 1);
        if side_pawn(pieces[spec_sq(file, r)], false) && r < prev { r } else { prev }
    }
}

/// No pawn of the side on file `cf`, ranks lo..=hi.
pub open spec fn clear_ranks(pieces: Seq<Piece>, cf: int, lo: int, hi: int, white: bool) -> bool {
    forall|r: int| lo <= r <= hi ==> !#[trigger] side_pawn(pieces[spec_sq(cf, r)], white)
}

/// No pawn of the side on files f_lo..=f_hi, ranks lo..=hi.
pub open spec fn clear_files(pieces: Seq<Piece>, f_lo: int, f_hi: int, lo: int, hi: int, white: bool) -> bool {
    forall|cf: int| f_lo <= cf <= f_hi ==> #[trigger] clear_ranks(pieces, cf, lo, hi, white)
}

/// Pawn-structure term of one file: -15 per extra (doubled) pawn, -12 for an
/// isolated pawn, and a bonus of 10 + 5 per rank advanced for a passed pawn
/// (no enemy pawn ahead on this or the neighbouring files); Black mirrored.
pub open spec fn file_structure(pieces: Seq<Piece>, file: int) -> int {
    let wc = pawns_on_file(pieces, file, true, 10);
    let bc = pawns_on_file(pieces, file, false, 10);
    let wl = if file > 1 { pawns_on_file(pieces, file - 1, true, 10) } else { 0 };
    let wr = if file < 11 { pawns_on_file(pieces, file + 1, true, 10) } else { 0 };
    let bl = if file > 1 { pawns_on_file(pieces, file - 1, false, 10) } else { 0 };
    let br = if file < 11 { pawns_on_file(pieces, file + 1, false, 10) } else { 0 };
    let hi_file = if file + 1 < 11 { file + 1 } else { 11 };
    let wadv = most_advanced_white(pieces, file, 10);
    let badv = most_advanced_black(pieces, file, 10);
    (if wc > 1 { -(wc - 1) * 15 } else { 0 })
    + (if bc > 1 { (bc - 1) * 15 } else { 0 })
    + (if wc > 0 && wl == 0 && wr == 0 { -12int } else { 0int })
    + (if bc > 0 && bl == 0 && br == 0 { 12int } else { 0int })
    + (if wc > 0 && clear_files(pieces, file - 1, hi_file, wadv + 1, 10, false) && wadv > 1 {
        10 + (wadv - 1) * 5
    } else {
        0
    })
    - (if bc > 0 && clear_files(pieces, file - 1, hi_file, 1, badv - 1, true) && badv < 10 {
        10 + (10 - badv) * 5
    } else {
        0
    })
}

/// Pawn-structure terms of files 1..=n.
pub open spec fn structure_sum(pieces: Seq<Piece>, n: int) -> int
    decreases n,
{
    if n <= 0 {
        0
    } else {
        structure_sum(pieces, n - 1) + file_structure(pieces, n)
    }
}

proof fn lemma_pawn_counts(pieces: Seq<Piece>, file: int, r: int)
    requires
        0 <= r,
    ensures
        0 <= pawns_on_file(pieces, file, true, r) <= r,
        0 <= pawns_on_file(pieces, file, false, r) <= r,
        0 <= most_advanced_white(pieces, file, r) <= r,
        1 <= most_advanced_black(pieces, file, r) <= 11,
        most_advanced_black(pieces, file, r) <= r || most_advanced_black(pieces, file, r) == 11,
    decreases r,
{
    if r > 0 {
        lemma_pawn_counts(pieces, file, r - 1);
    }
}

/// Is any pawn of the side on file `cf`, ranks lo..=hi?
fn pawn_in_ranks(board: &Board, cf: i32, lo: i32, hi: i32, white: bool) -> (found: bool)
    requires
        0 <= cf <= 11,
        1 <= lo,
        hi <= 10,
    ensures
        found == !clear_ranks(board@.pieces, cf as int, lo as int, hi as int, white),
{
    let mut r = lo;
    while r <= hi
        invariant
            0 <= cf <= 11,
            1 <= lo <= r,
            hi <= 10,
            r <= hi + 1 || r == lo,
            clear_ranks(board@.pieces, cf as int, lo as int, r - 1, white),
        decreases hi + 1 - r,
    {
        proof {
            lemma_sq_coords(cf as int, r as int);
        }
        let s = sq(cf, r);
        if s < MAILBOX_SIZE {
            let p = board.pieces[s];
            if p.is_pawn() && (if white { p.is_white() } else { p.is_black() }) {
                assert(side_pawn(board@.pieces[spec_sq(cf as int, r as int)], white));
                return true;
            }
        }
        r += 1;
    }
    false
}

/// Is the pawn passed: no enemy pawn on files file-1..=min(file+1, 11), ranks lo..=hi?
fn is_clear(board: &Board, file: i32, lo: i32, hi: i32, white: bool) -> (clear: bool)
    requires
        1 <= file <= 11,
        1 <= lo,
        hi <= 10,
    ensures
        clear == clear_files(board@.pieces, file - 1, if file + 1 < 11 { file + 1 } else { 11 }, lo as int, hi as int, white),
{
    let hi_file = if file + 1 < 11 { file + 1 } else { 11 };
    let mut cf = file - 1;
    while cf <= hi_file
        invariant
            1 <= file <= 11,
            1 <= lo,
            hi <= 10,
            hi_file == (if file + 1 < 11 { file + 1 } else { 11 }),
            file - 1 <= cf <= hi_file + 1,
            clear_files(board@.pieces, file - 1, cf - 1, lo as int, hi as int, white),
        decreases hi_file + 1 - cf,
    {
        if pawn_in_ranks(board, cf, lo, hi, white) {
            assert(!clear_ranks(board@.pieces, cf as int, lo as int, hi as int, white));
            return false;
        }
        cf += 1;
    }
    true
}

/// The pawn-structure term of one file, from the per-file counts.
#[verifier::rlimit(40)]
fn file_term(board: &Board, file: usize, wc: i32, bc: i32, wl: i32, wr: i32, bl: i32, br: i32, wadv: i32, badv: i32) -> (score: i32)
    requires
        1 <= file <= 11,
        wc == pawns_on_file(board@.pieces, file as int, true, 10),
        bc == pawns_on_file(board@.pieces, file as int, false, 10),
        wl == (if file > 1 { pawns_on_file(board@.pieces, file - 1, true, 10) } else { 0 }),
        wr == (if file < 11 { pawns_on_file(board@.pieces, file + 1, true, 10) } else { 0 }),
        bl == (if file > 1 { pawns_on_file(board@.pieces, file - 1, false, 10) } else { 0 }),
        br == (if file < 11 { pawns_on_file(board@.pieces, file + 1, false, 10) } else { 0 }),
        wadv == most_advanced_white(board@.pieces, file as int, 10),
        badv == most_advanced_black(board@.pieces, file as int, 10),
    ensures
        score == file_structure(board@.pieces, file as int),
        -450 <= score <= 450,
{
    proof {
        lemma_pawn_counts(board@.pieces, file as int, 10);
    }
    let mut score: i32 = 0;
    if wc > 1 {
        score -= (wc - 1) * 15;
    }
    if bc > 1 {
        score += (bc - 1) * 15;
    }
    if wc > 0 && wl == 0 && wr == 0 {
        score -= 12;
    }
    if bc > 0 && bl == 0 && br == 0 {
        score += 12;
    }
    if wc > 0 {
        let is_passed = is_clear(board, file as i32, wadv + 1, 10, false);
        if is_passed && wadv > 1 {
            score += 10 + (wadv - 1) * 5;
        }
    }
    if bc > 0 {
        let is_passed = is_clear(board, file as i32, 1, badv - 1, true);
        if is_passed && badv < 10 {
            score -= 10 + (10 - badv) * 5;
        }
    }
    score
}

fn pawn_structure(board: &Board) -> (score: i32)
    ensures
        score == structure_sum(board@.pieces, 11),
        -5000 <= score <= 5000,
{
    let mut score: i32 = 0;
    let mut w_pawns_on_file = [0i32; 12];
    let mut b_pawns_on_file = [0i32; 12];
    let mut w_pawn_most_advanced = [0i32; 12];
    let mut b_pawn_most_advanced = [11i32; 12];

    let mut rank: i32 = 1;
    while rank <= 10
        invariant
            1 <= rank <= 11,
            forall|f: int| 1 <= f <= 11 ==> #[trigger] w_pawns_on_file@[f] == pawns_on_file(board@.pieces, f, true, rank - 1),
            forall|f: int| 1 <= f <= 11 ==> #[trigger] b_pawns_on_file@[f] == pawns_on_file(board@.pieces, f, false, rank - 1),
            forall|f: int| 1 <= f <= 11 ==> #[trigger] w_pawn_most_advanced@[f] == most_advanced_white(board@.pieces, f, rank - 1),
            forall|f: int| 1 <= f <= 11 ==> #[trigger] b_pawn_most_advanced@[f] == most_advanced_black(board@.pieces, f, rank - 1),
        decreases 11 - rank,
    {
        let mut file: i32 = 1;
        while file <= 11
            invariant
                1 <= rank <= 10,
                1 <= file <= 12,
                forall|f: int| 1 <= f <= 11 ==> #[trigger] w_pawns_on_file@[f] == pawns_on_file(board@.pieces, f, true, if f < file { rank as int } else { rank - 1 }),
                forall|f: int| 1 <= f <= 11 ==> #[trigger] b_pawns_on_file@[f] == pawns_on_file(board@.pieces, f, false, if f < file { rank as int } else { rank - 1 }),
                forall|f: int| 1 <= f <= 11 ==> #[trigger] w_pawn_most_advanced@[f] == most_advanced_white(board@.pieces, f, if f < file { rank as int } else { rank - 1 }),
                forall|f: int| 1 <= f <= 11 ==> #[trigger] b_pawn_most_advanced@[f] == most_advanced_black(board@.pieces, f, if f < file { rank as int } else { rank - 1 }),
            decreases 12 - file,
        {
            proof {
                lemma_sq_coords(file as int, rank as int);
                lemma_pawn_counts(board@.pieces, file as int, rank - 1);
            }
            let s = sq(file, rank);
            let p = board.pieces[s];
            let fi = file as usize;
            if p.is_pawn() {
                if p.is_white() {
                    w_pawns_on_file[fi] = w_pawns_on_file[fi] + 1;
                    if rank > w_pawn_most_advanced[fi] {
                        w_pawn_most_advanced[fi] = rank;
                    }
                } else {
                    b_pawns_on_file[fi] = b_pawns_on_file[fi] + 1;
                    if rank < b_pawn_most_advanced[fi] {
                        b_pawn_most_advanced[fi] = rank;
                    }
                }
            }
            file += 1;
        }
        rank += 1;
    }

    let mut file: usize = 1;
    while file <= 11
        invariant
            1 <= file <= 12,
            forall|f: int| 1 <= f <= 11 ==> #[trigger] w_pawns_on_file@[f] == pawns_on_file(board@.pieces, f, true, 10),
            forall|f: int| 1 <= f <= 11 ==> #[trigger] b_pawns_on_file@[f] == pawns_on_file(board@.pieces, f, false, 10),
            forall|f: int| 1 <= f <= 11 ==> #[trigger] w_pawn_most_advanced@[f] == most_advanced_white(board@.pieces, f, 10),
            forall|f: int| 1 <= f <= 11 ==> #[trigger] b_pawn_most_advanced@[f] == most_advanced_black(board@.pieces, f, 10),
            score == structure_sum(board@.pieces, file - 1),
            -450 * (file - 1) <= score <= 450 * (file - 1),
        decreases 12 - file,
    {
        proof {
            lemma_pawn_counts(board@.pieces, file as int, 10);
            if file > 1 {
                lemma_pawn_counts(board@.pieces, file - 1, 10);
            }
            if file < 11 {
                lemma_pawn_counts(board@.pieces, file + 1, 10);
            }
        }
        let ghost before = score;
        let wl = if file > 1 { w_pawns_on_file[file - 1] } else { 0 };
        let wr = if file < 11 { w_pawns_on_file[file + 1] } else { 0 };
        let bl = if file > 1 { b_pawns_on_file[file - 1] } else { 0 };
        let br = if file < 11 { b_pawns_on_file[file + 1] } else { 0 };
        let term = file_term(board, file, w_pawns_on_file[file], b_pawns_on_file[file], wl, wr, bl, br,
            w_pawn_most_advanced[file], b_pawn_most_advanced[file]);
        score = score + term;
        assert(score == before + file_structure(board@.pieces, file as int));
        file += 1;
    }
    score
}


// ─── Endgame ────────────────────────────────────────────────────

/// Threshold of non-pawn, non-royal material (both sides together) below which
/// the endgame terms apply.
pub const ENDGAME_MATERIAL: i32 = 2400;

/// King centrality scaled by the endgame phase: entry `t * 9 + j` holds the
/// centrality bonus 5j multiplied by 1 - t / 2400 and truncated, for total
/// material t in 0..=2400. The table is computed where floating point is available.
pub struct PhaseTable {
    pub scaled: Vec<i32>,
}

impl PhaseTable {
    /// Full size, each entry between 0 and the unscaled bonus.
    pub open spec fn wf(&self) -> bool {
        &&& self.scaled@.len() == 2401 * 9
        &&& forall|i: int| 0 <= i < 2401 * 9 ==> 0 <= #[trigger] self.scaled@[i] <= 5 * (i % 9)
    }

    /// Scaled value of centrality `k` (a multiple of 5 up to 40) at total material `t`.
    pub open spec fn value(&self, t: int, k: int) -> int {
        self.scaled@[t * 9 + k / 5] as int
    }
}

pub open spec fn abs_int(x: int) -> int {
    if x < 0 { -x } else { x }
}

pub open spec fn min_int(a: int, b: int) -> int {
    if a < b { a } else { b }
}

/// Centrality bonus of a royal square: 5 per step below 8 of its distance to the centre.
pub open spec fn centrality(f: int, r: int) -> int {
    let c = abs_int(f - 6) + abs_int(2 * r - 11) / 2;
    if 8 - c > 0 { (8 - c) * 5 } else { 0 }
}

/// Bonus for a royal square near the edge: 10 per step below 4 of its edge distance.
pub open spec fn edge_push(f: int, r: int) -> int {
    let e = min_int(min_int(f - 1, 11 - f), min_int(r - 1, 10 - r));
    if 4 - e > 0 { (4 - e) * 10 } else { 0 }
}

/// Material of a side's non-pawn, non-royal pieces over the first `n` scanned squares.
pub open spec fn endgame_material(pieces: Seq<Piece>, white: bool, n: int) -> int
    decreases n,
{
    if n <= 0 {
        0
    } else {
        let p = pieces[scan_square(n - 1)];
        endgame_material(pieces, white, n - 1) + (if p != Piece::Empty && !p.pawn() && !p.king_type()
            && p.white() == white {
            MATERIAL@[p.kind() as int] as int
        } else {
            0
        })
    }
}

/// Endgame term: with at most 2400 of non-pawn material, each king earns its
/// phase-scaled centrality (White plus, Black minus), and a side more than 200
/// ahead in material earns the edge bonus of the enemy king.
pub open spec fn spec_endgame(b: BoardView, phase: PhaseTable) -> int {
    let w = endgame_material(b.pieces, true, 110);
    let bm = endgame_material(b.pieces, false, 110);
    let t = w + bm;
    if t > 2400 {
        0
    } else {
        let ws = match b.king_square(Color::White) {
            Some(k) => phase.value(t, centrality(spec_file_brd(k as int) as int, spec_rank_brd(k as int) as int)),
            None => 0,
        };
        let bs = match b.king_square(Color::Black) {
            Some(k) => phase.value(t, centrality(spec_file_brd(k as int) as int, spec_rank_brd(k as int) as int)),
            None => 0,
        };
        let edge = if w > bm + 200 {
            match b.king_square(Color::Black) {
                Some(k) => edge_push(spec_file_brd(k as int) as int, spec_rank_brd(k as int) as int),
                None => 0,
            }
        } else if bm > w + 200 {
            match b.king_square(Color::White) {
                Some(k) => -edge_push(spec_file_brd(k as int) as int, spec_rank_brd(k as int) as int),
                None => 0,
            }
        } else {
            0
        };
        ws - bs + edge
    }
}

fn side_endgame_material(board: &Board, white: bool) -> (m: i32)
    ensures
        m == endgame_material(board@.pieces, white, 110),
        0 <= m <= 500 * 110,
{
    proof {
        lemma_pst_bounds();
    }
    let mut m: i32 = 0;
    let mut rank: i32 = 1;
    while rank <= 10
        invariant
            1 <= rank <= 11,
            m == endgame_material(board@.pieces, white, (rank - 1) * 11),
            0 <= m <= 500 * ((rank - 1) * 11),
            forall|i: int| 0 <= i < 11 ==> 0 <= #[trigger] MATERIAL@[i] <= 500,
        decreases 11 - rank,
    {
        let mut file: i32 = 1;
        while file <= 11
            invariant
                1 <= rank <= 10,
                1 <= file <= 12,
                m == endgame_material(board@.pieces, white, (rank - 1) * 11 + file - 1),
                0 <= m <= 500 * ((rank - 1) * 11 + file - 1),
                forall|i: int| 0 <= i < 11 ==> 0 <= #[trigger] MATERIAL@[i] <= 500,
            decreases 12 - file,
        {
            proof {
                lemma_scan_index(file as int, rank as int);
            }
            let s = sq(file, rank);
            let p = board.pieces[s];
            if p != Piece::Empty && !p.is_pawn() && !p.is_king_type() && p.is_white() == white {
                m = m + MATERIAL[p.kind_index()];
            }
            file += 1;
        }
        rank += 1;
    }
    m
}

fn centrality_exec(f: i32, r: i32) -> (c: i32)
    requires
        -1 <= f <= 12,
        -1 <= r <= 12,
    ensures
        c == centrality(f as int, r as int),
        0 <= c <= 40,
        c % 5 == 0,
{
    let file_dist = if f - 6 < 0 { 6 - f } else { f - 6 };
    let t = r * 2 - 11;
    let rank_dist = (if t < 0 { -t } else { t }) / 2;
    let center_dist = file_dist + rank_dist;
    let k = if 8 - center_dist > 0 { 8 - center_dist } else { 0 };
    k * 5
}

fn edge_push_exec(f: i32, r: i32) -> (e: i32)
    requires
        -1 <= f <= 12,
        -1 <= r <= 12,
    ensures
        e == edge_push(f as int, r as int),
        0 <= e <= 60,
{
    let ef = if f - 1 < 11 - f { f - 1 } else { 11 - f };
    let er = if r - 1 < 10 - r { r - 1 } else { 10 - r };
    let edge = if ef < er { ef } else { er };
    if 4 - edge > 0 { (4 - edge) * 10 } else { 0 }
}

fn endgame_eval(board: &Board, phase: &PhaseTable) -> (score: i32)
    requires
        board@.wf(),
        phase.wf(),
    ensures
        score == spec_endgame(board@, *phase),
        -100 <= score <= 100,
{
    let w_material = side_endgame_material(board, true);
    let b_material = side_endgame_material(board, false);
    let total_material = w_material + b_material;
    if total_material > ENDGAME_MATERIAL {
        return 0;
    }
    let mut score: i32 = 0;
    proof {
        lemma_king_square(board@, Color::White);
        lemma_king_square(board@, Color::Black);
    }
    let wk_opt = board.king_sq(Color::White);
    let bk_opt = board.king_sq(Color::Black);
    if let Some(wk) = wk_opt {
        let k = centrality_exec(file_brd(wk), rank_brd(wk));
        let idx = (total_material as usize) * 9 + (k / 5) as usize;
        assert(0 <= phase.scaled@[idx as int] <= 40);
        score += phase.scaled[idx];
    }
    if let Some(bk) = bk_opt {
        let k = centrality_exec(file_brd(bk), rank_brd(bk));
        let idx = (total_material as usize) * 9 + (k / 5) as usize;
        assert(0 <= phase.scaled@[idx as int] <= 40);
        score -= phase.scaled[idx];
    }
    if w_material > b_material + 200 {
        if let Some(bk) = bk_opt {
            score += edge_push_exec(file_brd(bk), rank_brd(bk));
        }
    } else if b_material > w_material + 200 {
        if let Some(wk) = wk_opt {
            score -= edge_push_exec(file_brd(wk), rank_brd(wk));
        }
    }
    score
}

// ─── Hanging pieces ─────────────────────────────────────────────

/// Values used for the hanging-piece term, by kind (royal pieces count 0).
pub const PIECE_VAL: [i32; 11] = [500, 325, 300, 300, 150, 0, 150, 160, 160, 140, 100];

/// A quarter of the value of the k-th scanned piece of the given side when it
/// is a non-pawn, non-royal piece attacked by the enemy and not defended.
pub open spec fn hanging_at(b: BoardView, k: int, white: bool) -> int {
    let s = scan_square(k);
    let p = b.pieces[s];
    if p == Piece::Empty || p.pawn() || p.king_type() || PIECE_VAL@[p.kind() as int] == 0
        || p.white() != white {
        0
    } else {
        let enemy = if white { Color::Black } else { Color::White };
        let friendly = if white { Color::White } else { Color::Black };
        if attacked(b, s, enemy) && !attacked(b, s, friendly) {
            PIECE_VAL@[p.kind() as int] * 25 / 100
        } else {
            0
        }
    }
}

pub open spec fn hanging_sum(b: BoardView, white: bool, n: int) -> int
    decreases n,
{
    if n <= 0 {
        0
    } else {
        hanging_sum(b, white, n - 1) + hanging_at(b, n - 1, white)
    }
}

/// Hanging-piece term: each side's penalties, capped at 400; Black's minus White's.
pub open spec fn spec_hanging(b: BoardView) -> int {
    let w = hanging_sum(b, true, 110);
    let bl = hanging_sum(b, false, 110);
    (if bl < 400 { bl } else { 400 }) - (if w < 400 { w } else { 400 })
}

fn hanging_pieces(board: &Board) -> (score: i32)
    ensures
        score == spec_hanging(board@),
        -400 <= score <= 400,
{
    let mut total_white_penalty: i32 = 0;
    let mut total_black_penalty: i32 = 0;
    let mut rank: i32 = 1;
    while rank <= 10
        invariant
            1 <= rank <= 11,
            total_white_penalty == hanging_sum(board@, true, (rank - 1) * 11),
            total_black_penalty == hanging_sum(board@, false, (rank - 1) * 11),
            0 <= total_white_penalty <= 125 * ((rank - 1) * 11),
            0 <= total_black_penalty <= 125 * ((rank - 1) * 11),
        decreases 11 - rank,
    {
        let mut file: i32 = 1;
        while file <= 11
            invariant
                1 <= rank <= 10,
                1 <= file <= 12,
                total_white_penalty == hanging_sum(board@, true, (rank - 1) * 11 + file - 1),
                total_black_penalty == hanging_sum(board@, false, (rank - 1) * 11 + file - 1),
                0 <= total_white_penalty <= 125 * ((rank - 1) * 11 + file - 1),
                0 <= total_black_penalty <= 125 * ((rank - 1) * 11 + file - 1),
            decreases 12 - file,
        {
            proof {
                lemma_scan_index(file as int, rank as int);
            }
            let s = sq(file, rank);
            let p = board.pieces[s];
            if p != Piece::Empty && !p.is_pawn() && !p.is_king_type() {
                let piece_value = PIECE_VAL[p.kind_index()];
                if piece_value != 0 {
                    let is_white = p.is_white();
                    let enemy_color = if is_white { Color::Black } else { Color::White };
                    let friendly_color = if is_white { Color::White } else { Color::Black };
                    if is_attacked(board, s, enemy_color) && !is_attacked(board, s, friendly_color) {
                        let penalty = piece_value * 25 / 100;
                        if is_white {
                            total_white_penalty += penalty;
                        } else {
                            total_black_penalty += penalty;
                        }
                    }
                }
            }
            file += 1;
        }
        rank += 1;
    }
    let w = if total_white_penalty < 400 { total_white_penalty } else { 400 };
    let b = if total_black_penalty < 400 { total_black_penalty } else { 400 };
    b - w
}

// ─── Evaluation ─────────────────────────────────────────────────

/// Sum of all terms from White's point of view.
pub open spec fn white_score(b: BoardView, phase: PhaseTable) -> int {
    mat_pst_sum(b.pieces, 110) + spec_mobility(b.pieces) + spec_king_safety(b) + spec_development(b)
        + structure_sum(b.pieces, 11) + spec_endgame(b, phase) + spec_hanging(b)
}

/// The static evaluation from the side to move's point of view, including a
/// tempo bonus of 12.
pub open spec fn spec_evaluate(b: BoardView, phase: PhaseTable) -> int {
    if b.side == Color::White {
        white_score(b, phase) + 12
    } else {
        -white_score(b, phase) + 12
    }
}

proof fn lemma_hanging_pieces_only(b: BoardView, b2: BoardView, white: bool, n: int)
    requires
        b2.pieces == b.pieces,
    ensures
        hanging_sum(b, white, n) == hanging_sum(b2, white, n),
    decreases n,
{
    if n > 0 {
        lemma_hanging_pieces_only(b, b2, white, n - 1);
        let s = scan_square(n - 1);
        assert(attacked(b, s, Color::White) == attacked(b2, s, Color::White));
        assert(attacked(b, s, Color::Black) == attacked(b2, s, Color::Black));
        assert(hanging_at(b, n - 1, white) == hanging_at(b2, n - 1, white));
    }
}

/// The evaluation is from the side to move's point of view: two positions with
/// the same pieces and move count and opposite sides to move (whatever their
/// hashes and histories) evaluate to negations of each other, up to the tempo
/// bonus each side gets (the two evaluations sum to 24).
pub proof fn lemma_evaluate_side_to_move(b: BoardView, b2: BoardView, phase: PhaseTable)
    requires
        b2.pieces == b.pieces,
        b2.ply == b.ply,
        b2.side == b.side.other(),
    ensures
        spec_evaluate(b, phase) + spec_evaluate(b2, phase) == 24,
{
    assert(spec_king_safety(b) == spec_king_safety(b2));
    assert(spec_development(b) == spec_development(b2));
    assert(spec_endgame(b, phase) == spec_endgame(b2, phase));
    lemma_hanging_pieces_only(b, b2, true, 110);
    lemma_hanging_pieces_only(b, b2, false, 110);
    assert(spec_hanging(b) == spec_hanging(b2));
    assert(white_score(b, phase) == white_score(b2, phase));
}

/// Bound on the magnitude of any static evaluation.
pub const EVAL_BOUND: i32 = 900_000;

/// Evaluates the position from the side to move's point of view (positive is good for it).
pub fn evaluate(board: &Board, phase: &PhaseTable) -> (score: i32)
    requires
        board@.wf(),
        phase.wf(),
    ensures
        score == spec_evaluate(board@, *phase),
        -EVAL_BOUND <= score <= EVAL_BOUND,
{
    evaluate_internal(board, phase)
}

/// Evaluates the position; same result as `evaluate`.
pub fn evaluate_with_log(board: &Board, phase: &PhaseTable) -> (score: i32)
    requires
        board@.wf(),
        phase.wf(),
    ensures
        score == spec_evaluate(board@, *phase),
        -EVAL_BOUND <= score <= EVAL_BOUND,
{
    evaluate_internal(board, phase)
}

fn evaluate_internal(board: &Board, phase: &PhaseTable) -> (score: i32)
    requires
        board@.wf(),
        phase.wf(),
    ensures
        score == spec_evaluate(board@, *phase),
        -EVAL_BOUND <= score <= EVAL_BOUND,
{
    let mut score: i32 = material_and_pst(board);
    score += mobility_estimate(board);
    score += king_safety(board);
    score += development_penalty(board);
    score += pawn_structure(board);
    score += endgame_eval(board, phase);
    score += hanging_pieces(board);
    let tempo: i32 = 12;
    if board.side == Color::White { score + tempo } else { -score + tempo }
}

} // verus!
