use vstd::prelude::*;
use crate::types::{
    Color, Piece, ADVISOR_DIRS, CAMEL_DIRS, ELEPHANT_DIRS, KING_DIRS, KNIGHT_DIRS, MAILBOX_SIZE,
    MINISTER_DIRS, ROOK_DIRS, WARENGINE_DIRS, GIRAFFE_CHECK1, GIRAFFE_CHECK2, GIRAFFE_CHECK3,
    GIRAFFE_DIRS, GIRAFFE_SLIDE, sq,
};
use crate::board::{
    is_off_board, on_board, main_square, scan_square, lemma_scan_index, lemma_scan_square,
    lemma_sq_coords, lemma_king_square, Board, BoardView,
};

verus! {

// ─── Stepping along the mailbox ─────────────────────────────────

/// The square `d` away from `s`; a step below index 0 lands on `usize::MAX`,
/// which is off the board like every index past the mailbox.
pub open spec fn spec_step(s: int, d: int) -> int {
    if s + d < 0 {
        usize::MAX as int
    } else {
        s + d
    }
}

/// The square `d` away from `s` (off the board when that falls below 0).
pub fn step(s: usize, d: i32) -> (r: usize)
    requires
        s < MAILBOX_SIZE,
        -1000 <= d <= 1000,
    ensures
        r == spec_step(s as int, d as int),
{
    let x = s as i32 + d;
    if x < 0 {
        usize::MAX
    } else {
        x as usize
    }
}

/// Distance measure of a ray walk: it shrinks with every step taken from a playing square.
pub open spec fn ray_measure(t: int, d: int) -> int {
    if on_board(t) {
        if d > 0 {
            270 - t
        } else {
            t + 1
        }
    } else {
        0
    }
}

/// The first occupied square on the ray that starts at `t` and moves by `d`,
/// stopping at the edge of the playing area.
pub open spec fn first_blocker(pieces: Seq<Piece>, t: int, d: int) -> Option<int>
    decreases ray_measure(t, d),
{
    if d == 0 || !on_board(t) {
        None
    } else if pieces[t] != Piece::Empty {
        Some(t)
    } else {
        first_blocker(pieces, spec_step(t, d), d)
    }
}

/// Does the ray from `t` (moving by `d`) reach `to` through empty squares
/// (`to` itself may be occupied)?
pub open spec fn ray_reaches(pieces: Seq<Piece>, t: int, d: int, to: int) -> bool
    decreases ray_measure(t, d),
{
    if d == 0 || !on_board(t) {
        false
    } else if t == to {
        true
    } else if pieces[t] != Piece::Empty {
        false
    } else {
        ray_reaches(pieces, spec_step(t, d), d, to)
    }
}

/// Is `p` one of the three pieces?
pub open spec fn one_of(p: Piece, t: (Piece, Piece, Piece)) -> bool {
    p == t.0 || p == t.1 || p == t.2
}

/// A pawn of the given side.
pub open spec fn pawn_of(p: Piece, c: Color) -> bool {
    p != Piece::Empty && p.pawn() && match c {
        Color::White => p.white(),
        Color::Black => p.black(),
    }
}

/// A piece of side `c` among `targets` stands `dirs[i]` away from `s` for some `i`.
pub open spec fn leaper_attack(
    pieces: Seq<Piece>,
    s: int,
    c: Color,
    dirs: Seq<i32>,
    targets: (Piece, Piece, Piece),
) -> bool {
    exists|i: int|
        0 <= i < dirs.len() && #[trigger] on_board(spec_step(s, dirs[i] as int)) && {
            let p = pieces[spec_step(s, dirs[i] as int)];
            p != Piece::Empty && p.side() == Some(c) && one_of(p, targets)
        }
}

/// The first piece met from `s` in direction `d` is a piece of side `c` among `targets`.
pub open spec fn slider_hits(pieces: Seq<Piece>, s: int, c: Color, d: int, targets: (Piece, Piece, Piece)) -> bool {
    match first_blocker(pieces, spec_step(s, d), d) {
        Some(t) => pieces[t].side() == Some(c) && one_of(pieces[t], targets),
        None => false,
    }
}

/// A piece of side `c` among `targets` is the first piece met from `s`
/// along some direction of `dirs`.
pub open spec fn slider_attack(
    pieces: Seq<Piece>,
    s: int,
    c: Color,
    dirs: Seq<i32>,
    targets: (Piece, Piece, Piece),
) -> bool {
    exists|i: int| 0 <= i < dirs.len() && #[trigger] slider_hits(pieces, s, c, dirs[i] as int, targets)
}

/// The first piece met from `s` in direction `d`, at least two squares away, is a Catapult of side `c`.
pub open spec fn picket_hits(pieces: Seq<Piece>, s: int, c: Color, d: int) -> bool {
    match first_blocker(pieces, spec_step(s, d), d) {
        Some(t) => t != spec_step(s, d) && pieces[t].side() == Some(c) && (pieces[t] == Piece::WCatapult
            || pieces[t] == Piece::BCatapult),
        None => false,
    }
}

/// A Catapult of side `c` is the first piece met diagonally from `s`, at least two squares away.
pub open spec fn picket_attack(pieces: Seq<Piece>, s: int, c: Color) -> bool {
    exists|i: int| 0 <= i < 4 && #[trigger] picket_hits(pieces, s, c, MINISTER_DIRS@[i] as int)
}

/// A Giraffe on `from` reaches `to` along its `i`-th path, as it moves: the
/// three checkpoint squares are playing squares and empty, then it slides from
/// `GIRAFFE_DIRS[i]` by `GIRAFFE_SLIDE[i]` through empty squares up to `to`.
pub open spec fn giraffe_path(pieces: Seq<Piece>, from: int, to: int, i: int) -> bool {
    let c1 = spec_step(from, GIRAFFE_CHECK1@[i] as int);
    let c2 = spec_step(from, GIRAFFE_CHECK2@[i] as int);
    let c3 = spec_step(from, GIRAFFE_CHECK3@[i] as int);
    &&& on_board(c1) && on_board(c2) && on_board(c3)
    &&& pieces[c1] == Piece::Empty && pieces[c2] == Piece::Empty && pieces[c3] == Piece::Empty
    &&& ray_reaches(pieces, spec_step(from, GIRAFFE_DIRS@[i] as int), GIRAFFE_SLIDE@[i] as int, to)
}

/// A Giraffe on `from` reaches `to` along one of its eight paths.
pub open spec fn giraffe_reaches(pieces: Seq<Piece>, from: int, to: int) -> bool {
    exists|i: int| 0 <= i < 8 && #[trigger] giraffe_path(pieces, from, to, i)
}

/// Some Giraffe `g` among the first `n` scanned squares reaches `s`.
pub open spec fn giraffe_attack_upto(pieces: Seq<Piece>, s: int, g: Piece, n: int) -> bool
    decreases n,
{
    if n <= 0 {
        false
    } else {
        giraffe_attack_upto(pieces, s, g, n - 1) || (pieces[scan_square(n - 1)] == g
            && giraffe_reaches(pieces, scan_square(n - 1), s))
    }
}

/// Is square `s` attacked by side `c`? Pawns attack diagonally forward, the
/// leapers (Knight, royal pieces, Minister, Advisor, Camel, Warengine, Elephant)
/// from their jump squares, Rooks along open files and ranks, Catapults along open
/// diagonals from two squares or more, and Giraffes along their bent paths.
pub open spec fn attacked(b: BoardView, s: int, c: Color) -> bool {
    let pieces = b.pieces;
    let white = c == Color::White;
    ||| if white {
        (on_board(spec_step(s, -14)) && pawn_of(pieces[spec_step(s, -14)], Color::White)) || (
        on_board(spec_step(s, -16)) && pawn_of(pieces[spec_step(s, -16)], Color::White))
    } else {
        (on_board(spec_step(s, 14)) && pawn_of(pieces[spec_step(s, 14)], Color::Black)) || (
        on_board(spec_step(s, 16)) && pawn_of(pieces[spec_step(s, 16)], Color::Black))
    }
    ||| leaper_attack(pieces, s, c, KNIGHT_DIRS@, (Piece::WKnight, Piece::BKnight, Piece::BKnight))
    ||| leaper_attack(
        pieces,
        s,
        c,
        KING_DIRS@,
        if white {
            (Piece::WKing, Piece::WPrince, Piece::WAdKing)
        } else {
            (Piece::BKing, Piece::BPrince, Piece::BAdKing)
        },
    )
    ||| leaper_attack(pieces, s, c, MINISTER_DIRS@, (Piece::WMinister, Piece::BMinister, Piece::BMinister))
    ||| leaper_attack(pieces, s, c, ADVISOR_DIRS@, (Piece::WAdvisor, Piece::BAdvisor, Piece::BAdvisor))
    ||| leaper_attack(pieces, s, c, CAMEL_DIRS@, (Piece::WCamel, Piece::BCamel, Piece::BCamel))
    ||| leaper_attack(pieces, s, c, WARENGINE_DIRS@, (Piece::WWarengine, Piece::BWarengine, Piece::BWarengine))
    ||| leaper_attack(pieces, s, c, ELEPHANT_DIRS@, (Piece::WElephant, Piece::BElephant, Piece::BElephant))
    ||| slider_attack(pieces, s, c, ROOK_DIRS@, (Piece::WRook, Piece::BRook, Piece::BRook))
    ||| picket_attack(pieces, s, c)
    ||| giraffe_attack_upto(pieces, s, if white { Piece::WGiraffe } else { Piece::BGiraffe }, 110)
}

/// A pawn attacks the two squares diagonally in front of it: a White pawn on
/// s - 14 or s - 16 (one rank lower, one file to either side) attacks s, and a
/// Black pawn on s + 14 or s + 16 (one rank higher) attacks s.
pub proof fn lemma_pawn_attacks(b: BoardView, s: int)
    ensures
        s >= 14 && on_board(s - 14) && b.pieces[s - 14].pawn() && b.pieces[s - 14].white() ==> attacked(b, s, Color::White),
        s >= 16 && on_board(s - 16) && b.pieces[s - 16].pawn() && b.pieces[s - 16].white() ==> attacked(b, s, Color::White),
        on_board(s + 14) && b.pieces[s + 14].pawn() && b.pieces[s + 14].black() ==> attacked(b, s, Color::Black),
        on_board(s + 16) && b.pieces[s + 16].pawn() && b.pieces[s + 16].black() ==> attacked(b, s, Color::Black),
{
}

/// A side whose royal piece stands diagonally in front of an enemy pawn (as
/// seen from the pawn) is in check.
pub proof fn lemma_pawn_gives_check(b: BoardView)
    ensures
        b.king_square(b.side) matches Some(k) && b.side == Color::Black && ((k >= 14 && on_board(k - 14)
            && b.pieces[k - 14].pawn() && b.pieces[k - 14].white()) || (k >= 16 && on_board(k - 16)
            && b.pieces[k - 16].pawn() && b.pieces[k - 16].white())) ==> spec_in_check(b),
        b.king_square(b.side) matches Some(k) && b.side == Color::White && ((on_board(k + 14)
            && b.pieces[k + 14].pawn() && b.pieces[k + 14].black()) || (on_board(k + 16)
            && b.pieces[k + 16].pawn() && b.pieces[k + 16].black())) ==> spec_in_check(b),
{
    if let Some(k) = b.king_square(b.side) {
        lemma_pawn_attacks(b, k as int);
    }
}

/// Is the side to move's royal square attacked?
pub open spec fn spec_in_check(b: BoardView) -> bool {
    match b.king_square(b.side) {
        Some(k) => attacked(b, k as int, b.side.other()),
        None => false,
    }
}

/// Is square `s` attacked by side `attacker`?
pub fn is_attacked(board: &Board, s: usize, attacker: Color) -> (r: bool)
    requires
        s < MAILBOX_SIZE,
    ensures
        r == attacked(board@, s as int, attacker),
{
    let white = attacker == Color::White;
    let pawn_hit = if white {
        let s1 = step(s, -14);
        let s2 = step(s, -16);
        (!is_off_board(s1) && is_pawn_of_color(board.pieces[s1], Color::White)) || (!is_off_board(
            s2,
        ) && is_pawn_of_color(board.pieces[s2], Color::White))
    } else {
        let s1 = step(s, 14);
        let s2 = step(s, 16);
        (!is_off_board(s1) && is_pawn_of_color(board.pieces[s1], Color::Black)) || (!is_off_board(
            s2,
        ) && is_pawn_of_color(board.pieces[s2], Color::Black))
    };
    if pawn_hit {
        return true;
    }
    if check_leaper(board, s, attacker, &KNIGHT_DIRS, (Piece::WKnight, Piece::BKnight, Piece::BKnight)) {
        return true;
    }
    let royal = if white {
        (Piece::WKing, Piece::WPrince, Piece::WAdKing)
    } else {
        (Piece::BKing, Piece::BPrince, Piece::BAdKing)
    };
    if check_leaper(board, s, attacker, &KING_DIRS, royal) {
        return true;
    }
    if check_leaper(board, s, attacker, &MINISTER_DIRS, (Piece::WMinister, Piece::BMinister, Piece::BMinister)) {
        return true;
    }
    if check_leaper(board, s, attacker, &ADVISOR_DIRS, (Piece::WAdvisor, Piece::BAdvisor, Piece::BAdvisor)) {
        return true;
    }
    if check_leaper(board, s, attacker, &CAMEL_DIRS, (Piece::WCamel, Piece::BCamel, Piece::BCamel)) {
        return true;
    }
    if check_leaper(board, s, attacker, &WARENGINE_DIRS, (Piece::WWarengine, Piece::BWarengine, Piece::BWarengine)) {
        return true;
    }
    if check_leaper(board, s, attacker, &ELEPHANT_DIRS, (Piece::WElephant, Piece::BElephant, Piece::BElephant)) {
        return true;
    }
    if check_slider(board, s, attacker, &ROOK_DIRS, (Piece::WRook, Piece::BRook, Piece::BRook)) {
        return true;
    }
    if check_picket(board, s, attacker) {
        return true;
    }
    if check_giraffe(board, s, attacker) {
        return true;
    }
    false
}

fn is_pawn_of_color(p: Piece, color: Color) -> (r: bool)
    ensures
        r == pawn_of(p, color),
{
    if p == Piece::Empty {
        return false;
    }
    if !p.is_pawn() {
        return false;
    }
    match color {
        Color::White => p.is_white(),
        Color::Black => p.is_black(),
    }
}

fn check_leaper(
    board: &Board,
    s: usize,
    attacker: Color,
    dirs: &[i32],
    targets: (Piece, Piece, Piece),
) -> (r: bool)
    requires
        s < MAILBOX_SIZE,
        forall|i: int| 0 <= i < dirs@.len() ==> -100 <= #[trigger] dirs@[i] <= 100,
    ensures
        r == leaper_attack(board@.pieces, s as int, attacker, dirs@, targets),
{
    let mut i: usize = 0;
    while i < dirs.len()
        invariant
            s < MAILBOX_SIZE,
            forall|i: int| 0 <= i < dirs@.len() ==> -100 <= #[trigger] dirs@[i] <= 100,
            i <= dirs@.len(),
            forall|j: int|
                0 <= j < i ==> !(#[trigger] on_board(spec_step(s as int, dirs@[j] as int)) && {
                    let p = board@.pieces[spec_step(s as int, dirs@[j] as int)];
                    p != Piece::Empty && p.side() == Some(attacker) && one_of(p, targets)
                }),
        decreases dirs@.len() - i,
    {
        let d = dirs[i];
        let ts = step(s, d);
        if !is_off_board(ts) {
            let p = board.pieces[ts];
            if p != Piece::Empty && p.color() == Some(attacker) && (p == targets.0 || p
                == targets.1 || p == targets.2) {
                assert(on_board(spec_step(s as int, dirs@[i as int] as int)));
                return true;
            }
        }
        i += 1;
    }
    false
}

/// First occupied square on a ray, as computed by walking it.
fn walk_ray(board: &Board, start: usize, d: i32) -> (r: Option<usize>)
    requires
        start < 400 || start == usize::MAX,
        -100 <= d <= 100,
        d != 0,
    ensures
        r matches Some(t) ==> first_blocker(board@.pieces, start as int, d as int) == Some(t as int) && t < MAILBOX_SIZE,
        r is None ==> first_blocker(board@.pieces, start as int, d as int) is None,
{
    let mut ts = start;
    while !is_off_board(ts)
        invariant
            -100 <= d <= 100,
            d != 0,
            first_blocker(board@.pieces, ts as int, d as int) == first_blocker(board@.pieces, start as int, d as int),
        decreases ray_measure(ts as int, d as int),
    {
        if board.pieces[ts] != Piece::Empty {
            return Some(ts);
        }
        ts = step(ts, d);
    }
    None
}

fn check_slider(
    board: &Board,
    s: usize,
    attacker: Color,
    dirs: &[i32],
    targets: (Piece, Piece, Piece),
) -> (r: bool)
    requires
        s < MAILBOX_SIZE,
        forall|i: int| 0 <= i < dirs@.len() ==> -100 <= #[trigger] dirs@[i] <= 100 && dirs@[i] != 0,
    ensures
        r == slider_attack(board@.pieces, s as int, attacker, dirs@, targets),
{
    let mut i: usize = 0;
    while i < dirs.len()
        invariant
            s < MAILBOX_SIZE,
            forall|i: int| 0 <= i < dirs@.len() ==> -100 <= #[trigger] dirs@[i] <= 100 && dirs@[i] != 0,
            i <= dirs@.len(),
            forall|j: int| 0 <= j < i ==> !#[trigger] slider_hits(board@.pieces, s as int, attacker, dirs@[j] as int, targets),
        decreases dirs@.len() - i,
    {
        let d = dirs[i];
        let start = step(s, d);
        match walk_ray(board, start, d) {
            Some(t) => {
                let p = board.pieces[t];
                if p.color() == Some(attacker) && (p == targets.0 || p == targets.1 || p == targets.2) {
                    assert(slider_hits(board@.pieces, s as int, attacker, dirs@[i as int] as int, targets));
                    return true;
                }
            },
            None => {},
        }
        i += 1;
    }
    false
}

fn check_picket(board: &Board, s: usize, attacker: Color) -> (r: bool)
    requires
        s < MAILBOX_SIZE,
    ensures
        r == picket_attack(board@.pieces, s as int, attacker),
{
    let mut i: usize = 0;
    while i < 4
        invariant
            s < MAILBOX_SIZE,
            i <= 4,
            forall|j: int| 0 <= j < i ==> !#[trigger] picket_hits(board@.pieces, s as int, attacker, MINISTER_DIRS@[j] as int),
        decreases 4 - i,
    {
        let d = MINISTER_DIRS[i];
        let start = step(s, d);
        match walk_ray(board, start, d) {
            Some(t) => {
                let p = board.pieces[t];
                if t != start && p.color() == Some(attacker) && (p == Piece::WCatapult || p == Piece::BCatapult) {
                    assert(picket_hits(board@.pieces, s as int, attacker, MINISTER_DIRS@[i as int] as int));
                    return true;
                }
            },
            None => {},
        }
        i += 1;
    }
    false
}

fn check_giraffe(board: &Board, s: usize, attacker: Color) -> (r: bool)
    requires
        s < MAILBOX_SIZE,
    ensures
        r == giraffe_attack_upto(board@.pieces, s as int, if attacker == Color::White { Piece::WGiraffe } else { Piece::BGiraffe }, 110),
{
    let giraffe_type = if attacker == Color::White { Piece::WGiraffe } else { Piece::BGiraffe };
    let mut r: i32 = 1;
    while r <= 10
        invariant
            1 <= r <= 11,
            s < MAILBOX_SIZE,
            !giraffe_attack_upto(board@.pieces, s as int, giraffe_type, (r - 1) * 11),
            giraffe_type == (if attacker == Color::White { Piece::WGiraffe } else { Piece::BGiraffe }),
        decreases 11 - r,
    {
        let mut f: i32 = 1;
        while f <= 11
            invariant
                1 <= r <= 10,
                1 <= f <= 12,
                s < MAILBOX_SIZE,
                !giraffe_attack_upto(board@.pieces, s as int, giraffe_type, (r - 1) * 11 + f - 1),
                giraffe_type == (if attacker == Color::White { Piece::WGiraffe } else { Piece::BGiraffe }),
            decreases 12 - f,
        {
            proof {
                lemma_scan_index(f as int, r as int);
                lemma_sq_coords(f as int, r as int);
            }
            let gs = sq(f, r);
            if board.pieces[gs] == giraffe_type {
                if can_giraffe_reach(board, gs, s) {
                    assert(giraffe_attack_upto(board@.pieces, s as int, giraffe_type, (r - 1) * 11 + f));
                    proof {
                        lemma_giraffe_upto_mono(board@.pieces, s as int, giraffe_type, (r - 1) * 11 + f, 110);
                    }
                    return true;
                }
            }
            f += 1;
        }
        r += 1;
    }
    false
}

/// A Giraffe attack found among fewer scanned squares is found among more.
proof fn lemma_giraffe_upto_mono(pieces: Seq<Piece>, s: int, g: Piece, m: int, n: int)
    requires
        0 <= m <= n,
        giraffe_attack_upto(pieces, s, g, m),
    ensures
        giraffe_attack_upto(pieces, s, g, n),
    decreases n - m,
{
    if m < n {
        lemma_giraffe_upto_mono(pieces, s, g, m, n - 1);
    }
}

fn ray_reaches_exec(board: &Board, start: usize, d: i32, to: usize) -> (r: bool)
    requires
        start < 400 || start == usize::MAX,
        -100 <= d <= 100,
        d != 0,
    ensures
        r == ray_reaches(board@.pieces, start as int, d as int, to as int),
{
    let mut curr = start;
    while !is_off_board(curr)
        invariant
            -100 <= d <= 100,
            d != 0,
            ray_reaches(board@.pieces, curr as int, d as int, to as int) == ray_reaches(board@.pieces, start as int, d as int, to as int),
        decreases ray_measure(curr as int, d as int),
    {
        if curr == to {
            return true;
        }
        if board.pieces[curr] != Piece::Empty {
            return false;
        }
        curr = step(curr, d);
    }
    false
}

/// Can the Giraffe on `from` reach `to`?
fn can_giraffe_reach(board: &Board, from: usize, to: usize) -> (r: bool)
    requires
        from < MAILBOX_SIZE,
    ensures
        r == giraffe_reaches(board@.pieces, from as int, to as int),
{
    let mut i: usize = 0;
    while i < 8
        invariant
            from < MAILBOX_SIZE,
            i <= 8,
            forall|ii: int| 0 <= ii < i ==> !#[trigger] giraffe_path(board@.pieces, from as int, to as int, ii),
        decreases 8 - i,
    {
        let c1 = step(from, GIRAFFE_CHECK1[i]);
        let c2 = step(from, GIRAFFE_CHECK2[i]);
        let c3 = step(from, GIRAFFE_CHECK3[i]);
        if !is_off_board(c1) && !is_off_board(c2) && !is_off_board(c3) && board.pieces[c1] == Piece::Empty
            && board.pieces[c2] == Piece::Empty && board.pieces[c3] == Piece::Empty {
            let start = step(from, GIRAFFE_DIRS[i]);
            if ray_reaches_exec(board, start, GIRAFFE_SLIDE[i], to) {
                assert(giraffe_path(board@.pieces, from as int, to as int, i as int));
                return true;
            }
        }
        i += 1;
    }
    false
}

/// Is the side to move's royal piece attacked?
pub fn in_check(board: &Board) -> (r: bool)
    requires
        board@.wf(),
    ensures
        r == spec_in_check(board@),
{
    let ksq = board.king_sq(board.side);
    proof {
        lemma_king_square(board@, board.side);
    }
    match ksq {
        Some(s) => is_attacked(board, s, board.side.flip()),
        None => false,
    }
}

} // verus!
