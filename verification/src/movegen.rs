use vstd::prelude::*;
use crate::types::{
    Color, mv_from, Move, Piece, spec_make_move, make_move, make_quiet, make_capture, lemma_move_fields,
    spec_mv_is_promotion, spec_mv_promoted_to, spec_mv_from, spec_mv_to, MAILBOX_SIZE, WHITE_CITADEL,
    BLACK_CITADEL, ADVISOR_DIRS, CAMEL_DIRS, ELEPHANT_DIRS, KING_DIRS, KNIGHT_DIRS, MINISTER_DIRS,
    ROOK_DIRS, WARENGINE_DIRS, GIRAFFE_CHECK1, GIRAFFE_CHECK2, GIRAFFE_CHECK3, GIRAFFE_DIRS,
    GIRAFFE_SLIDE, sq,
};
use crate::board::{
    is_off_board, on_board, rank_brd, spec_rank_brd, scan_square, lemma_scan_index,
    lemma_sq_coords, demotion, lemma_demote_promotion, lemma_unmake_make, lemma_king_square,
    full_hash, lemma_make_keeps_full_hash,
    Board, BoardView,
};
use crate::attack::{spec_step, step, ray_measure, is_attacked, attacked};

verus! {

// ─── Specification of the generated move lists ───────────────────

/// A move can be taken back exactly on a board with these pieces.
pub open spec fn move_ok(pieces: Seq<Piece>, m: Move) -> bool {
    spec_mv_is_promotion(m) ==> demotion(spec_mv_promoted_to(m)) == pieces[spec_mv_from(m)]
}

/// Citadel rule: nobody enters the own citadel address, only royal pieces enter
/// the opponent's.
pub open spec fn can_enter(piece: Piece, to: int, side: Color) -> bool {
    if to != WHITE_CITADEL && to != BLACK_CITADEL {
        true
    } else if side == Color::White {
        to == BLACK_CITADEL && (piece == Piece::WKing || piece == Piece::WAdKing || piece
            == Piece::WPrince)
    } else {
        to == WHITE_CITADEL && (piece == Piece::BKing || piece == Piece::BAdKing || piece
            == Piece::BPrince)
    }
}

/// The target holds a piece not of `side`.
pub open spec fn enemy(p: Piece, side: Color) -> bool {
    p != Piece::Empty && p.side() != Some(side)
}

/// A move to `t`: a promotion (to `piece`'s promoted form) when `t` is on the
/// promotion rank, else a plain move, capturing whatever stands on `t`.
pub open spec fn pawn_move_to(pieces: Seq<Piece>, s: int, t: int, piece: Piece, promo_rank: i32) -> Move {
    if spec_rank_brd(t) == promo_rank {
        spec_make_move(s as usize, t as usize, pieces[t], true, piece.promotion())
    } else {
        spec_make_move(s as usize, t as usize, pieces[t], false, Piece::Empty)
    }
}

pub open spec fn pawn_forward(side: Color) -> int {
    if side == Color::White { 15 } else { -15 }
}

pub open spec fn pawn_cap(side: Color, i: int) -> int {
    if side == Color::White {
        if i == 0 { 14 } else { 16 }
    } else {
        if i == 0 { -14 } else { -16 }
    }
}

pub open spec fn promo_rank(side: Color) -> i32 {
    if side == Color::White { 10 } else { 1 }
}

/// The forward step of a pawn, onto an empty square.
pub open spec fn pawn_push(pieces: Seq<Piece>, s: int, piece: Piece, side: Color, promo_only: bool) -> Seq<Move> {
    let t = spec_step(s, pawn_forward(side));
    if on_board(t) && can_enter(piece, t, side) && pieces[t] == Piece::Empty && (!promo_only
        || spec_rank_brd(t) == promo_rank(side)) {
        seq![pawn_move_to(pieces, s, t, piece, promo_rank(side))]
    } else {
        seq![]
    }
}

/// The diagonal capture of a pawn in its `i`-th capture direction.
pub open spec fn pawn_capture(pieces: Seq<Piece>, s: int, piece: Piece, side: Color, i: int) -> Seq<Move> {
    let t = spec_step(s, pawn_cap(side, i));
    if on_board(t) && can_enter(piece, t, side) && enemy(pieces[t], side) {
        seq![pawn_move_to(pieces, s, t, piece, promo_rank(side))]
    } else {
        seq![]
    }
}

/// All pawn moves: the forward step, then the two diagonal captures.
pub open spec fn pawn_moves(pieces: Seq<Piece>, s: int, piece: Piece, side: Color) -> Seq<Move> {
    pawn_push(pieces, s, piece, side, false) + pawn_capture(pieces, s, piece, side, 0)
        + pawn_capture(pieces, s, piece, side, 1)
}

/// Pawn captures, then a non-capturing promotion.
pub open spec fn pawn_captures(pieces: Seq<Piece>, s: int, piece: Piece, side: Color) -> Seq<Move> {
    pawn_capture(pieces, s, piece, side, 0) + pawn_capture(pieces, s, piece, side, 1) + pawn_push(
        pieces,
        s,
        piece,
        side,
        true,
    )
}

/// A leaper's move in direction `d`: to an empty square, or capturing an enemy piece.
pub open spec fn leaper_one(pieces: Seq<Piece>, s: int, piece: Piece, side: Color, d: int, captures_only: bool) -> Seq<Move> {
    let t = spec_step(s, d);
    if on_board(t) && can_enter(piece, t, side) {
        if pieces[t] == Piece::Empty {
            if captures_only {
                seq![]
            } else {
                seq![spec_make_move(s as usize, t as usize, Piece::Empty, false, Piece::Empty)]
            }
        } else if pieces[t].side() != Some(side) {
            seq![spec_make_move(s as usize, t as usize, pieces[t], false, Piece::Empty)]
        } else {
            seq![]
        }
    } else {
        seq![]
    }
}

/// A leaper's moves in the first `n` directions of `dirs`.
pub open spec fn leaper_moves(pieces: Seq<Piece>, s: int, piece: Piece, side: Color, dirs: Seq<i32>, n: int, captures_only: bool) -> Seq<Move>
    decreases n,
{
    if n <= 0 {
        seq![]
    } else {
        leaper_moves(pieces, s, piece, side, dirs, n - 1, captures_only) + leaper_one(
            pieces,
            s,
            piece,
            side,
            dirs[n - 1] as int,
            captures_only,
        )
    }
}

/// Moves of a rider from `s` along the ray starting at `t` (step `d`): empty squares
/// are reached one after another (unless only captures are wanted), the first
/// occupied square ends the ray and is captured when it holds an enemy piece;
/// squares the piece may not enter are passed over.
/// `min_dist` is the least distance at which the piece may stop (2 for the Catapult).
pub open spec fn ray_moves(pieces: Seq<Piece>, s: int, piece: Piece, side: Color, t: int, d: int, dist: int, min_dist: int, captures_only: bool) -> Seq<Move>
    decreases ray_measure(t, d),
{
    if d == 0 || !on_board(t) {
        seq![]
    } else if !can_enter(piece, t, side) {
        ray_moves(pieces, s, piece, side, spec_step(t, d), d, dist + 1, min_dist, captures_only)
    } else if pieces[t] == Piece::Empty {
        (if dist >= min_dist && !captures_only {
            seq![spec_make_move(s as usize, t as usize, Piece::Empty, false, Piece::Empty)]
        } else {
            seq![]
        }) + ray_moves(pieces, s, piece, side, spec_step(t, d), d, dist + 1, min_dist, captures_only)
    } else if dist >= min_dist && pieces[t].side() != Some(side) {
        seq![spec_make_move(s as usize, t as usize, pieces[t], false, Piece::Empty)]
    } else {
        seq![]
    }
}

/// Rider moves over the first `n` directions of `dirs`.
pub open spec fn rider_moves(pieces: Seq<Piece>, s: int, piece: Piece, side: Color, dirs: Seq<i32>, n: int, min_dist: int, captures_only: bool) -> Seq<Move>
    decreases n,
{
    if n <= 0 {
        seq![]
    } else {
        rider_moves(pieces, s, piece, side, dirs, n - 1, min_dist, captures_only) + ray_moves(
            pieces,
            s,
            piece,
            side,
            spec_step(s, dirs[n - 1] as int),
            dirs[n - 1] as int,
            1,
            min_dist,
            captures_only,
        )
    }
}

/// Giraffe moves along its `i`-th path: the three checkpoint squares must be
/// playing squares and empty, then it rides from `GIRAFFE_DIRS[i]` by `GIRAFFE_SLIDE[i]`.
pub open spec fn giraffe_path_moves(pieces: Seq<Piece>, s: int, piece: Piece, side: Color, i: int, captures_only: bool) -> Seq<Move> {
    let c1 = spec_step(s, GIRAFFE_CHECK1@[i] as int);
    let c2 = spec_step(s, GIRAFFE_CHECK2@[i] as int);
    let c3 = spec_step(s, GIRAFFE_CHECK3@[i] as int);
    if on_board(c1) && on_board(c2) && on_board(c3) && pieces[c1] == Piece::Empty && pieces[c2]
        == Piece::Empty && pieces[c3] == Piece::Empty {
        ray_moves(
            pieces,
            s,
            piece,
            side,
            spec_step(s, GIRAFFE_DIRS@[i] as int),
            GIRAFFE_SLIDE@[i] as int,
            1,
            1,
            captures_only,
        )
    } else {
        seq![]
    }
}

pub open spec fn giraffe_moves(pieces: Seq<Piece>, s: int, piece: Piece, side: Color, n: int, captures_only: bool) -> Seq<Move>
    decreases n,
{
    if n <= 0 {
        seq![]
    } else {
        giraffe_moves(pieces, s, piece, side, n - 1, captures_only) + giraffe_path_moves(
            pieces,
            s,
            piece,
            side,
            n - 1,
            captures_only,
        )
    }
}

/// Moves of a non-pawn piece on `s`, by kind.
pub open spec fn piece_moves(pieces: Seq<Piece>, s: int, piece: Piece, side: Color, captures_only: bool) -> Seq<Move> {
    match piece {
        Piece::WRook | Piece::BRook => rider_moves(pieces, s, piece, side, ROOK_DIRS@, 4, 1, captures_only),
        Piece::WKnight | Piece::BKnight => leaper_moves(pieces, s, piece, side, KNIGHT_DIRS@, 8, captures_only),
        Piece::WCatapult | Piece::BCatapult => rider_moves(pieces, s, piece, side, MINISTER_DIRS@, 4, 2, captures_only),
        Piece::WGiraffe | Piece::BGiraffe => giraffe_moves(pieces, s, piece, side, 8, captures_only),
        Piece::WMinister | Piece::BMinister => leaper_moves(pieces, s, piece, side, MINISTER_DIRS@, 4, captures_only),
        Piece::WKing | Piece::BKing | Piece::WPrince | Piece::BPrince | Piece::WAdKing | Piece::BAdKing =>
            leaper_moves(pieces, s, piece, side, KING_DIRS@, 8, captures_only),
        Piece::WAdvisor | Piece::BAdvisor => leaper_moves(pieces, s, piece, side, ADVISOR_DIRS@, 4, captures_only),
        Piece::WElephant | Piece::BElephant => leaper_moves(pieces, s, piece, side, ELEPHANT_DIRS@, 8, captures_only),
        Piece::WCamel | Piece::BCamel => leaper_moves(pieces, s, piece, side, CAMEL_DIRS@, 8, captures_only),
        Piece::WWarengine | Piece::BWarengine => leaper_moves(pieces, s, piece, side, WARENGINE_DIRS@, 4, captures_only),
        _ => seq![],
    }
}

/// The moves generated from the `k`-th scanned square.
pub open spec fn square_moves(b: BoardView, k: int, captures_only: bool) -> Seq<Move> {
    let s = scan_square(k);
    let piece = b.pieces[s];
    if piece == Piece::Empty || piece.side() != Some(b.side) {
        seq![]
    } else if piece.pawn() {
        if captures_only {
            pawn_captures(b.pieces, s, piece, b.side)
        } else {
            pawn_moves(b.pieces, s, piece, b.side)
        }
    } else {
        piece_moves(b.pieces, s, piece, b.side, captures_only)
    }
}

/// Pseudo-legal moves from the first `n` scanned squares.
pub open spec fn moves_upto(b: BoardView, n: int, captures_only: bool) -> Seq<Move>
    decreases n,
{
    if n <= 0 {
        seq![]
    } else {
        moves_upto(b, n - 1, captures_only) + square_moves(b, n - 1, captures_only)
    }
}

/// All pseudo-legal moves of the side to move, square by square in scan order.
pub open spec fn pseudo_moves(b: BoardView) -> Seq<Move> {
    moves_upto(b, 110, false)
}

/// Pseudo-legal captures (and promotions) of the side to move.
pub open spec fn pseudo_captures(b: BoardView) -> Seq<Move> {
    moves_upto(b, 110, true)
}

/// Every move of a list can be taken back exactly.
pub open spec fn all_ok(pieces: Seq<Piece>, ms: Seq<Move>) -> bool {
    forall|i: int| 0 <= i < ms.len() ==> #[trigger] move_ok(pieces, ms[i])
}

// ─── Moves stay on the board ────────────────────────────────────

/// Both squares of the move are playing squares.
pub open spec fn on_board_move(m: Move) -> bool {
    on_board(spec_mv_from(m)) && on_board(spec_mv_to(m))
}

/// Every move of the list goes between playing squares.
pub open spec fn all_on_board(ms: Seq<Move>) -> bool {
    forall|i: int| 0 <= i < ms.len() ==> #[trigger] on_board_move(ms[i])
}

proof fn lemma_concat_on_board(a: Seq<Move>, b: Seq<Move>)
    requires
        all_on_board(a),
        all_on_board(b),
    ensures
        all_on_board(a + b),
{
    assert forall|i: int| 0 <= i < (a + b).len() implies #[trigger] on_board_move((a + b)[i]) by {
        if i < a.len() {
            assert(on_board_move(a[i]));
        } else {
            assert(on_board_move(b[i - a.len()]));
        }
    }
}

proof fn lemma_made_on_board(s: int, t: int, captured: Piece, promotion: bool, promoted_to: Piece)
    requires
        on_board(s),
        on_board(t),
    ensures
        on_board_move(spec_make_move(s as usize, t as usize, captured, promotion, promoted_to)),
        all_on_board(seq![spec_make_move(s as usize, t as usize, captured, promotion, promoted_to)]),
{
    lemma_move_fields(s as usize, t as usize, captured, promotion, promoted_to);
    let m = spec_make_move(s as usize, t as usize, captured, promotion, promoted_to);
    assert(seq![m][0] == m);
}

proof fn lemma_pawn_on_board(pieces: Seq<Piece>, s: int, piece: Piece, side: Color)
    requires
        on_board(s),
    ensures
        all_on_board(pawn_moves(pieces, s, piece, side)),
        all_on_board(pawn_captures(pieces, s, piece, side)),
{
    let pr = promo_rank(side);
    let t0 = spec_step(s, pawn_forward(side));
    let t1 = spec_step(s, pawn_cap(side, 0));
    let t2 = spec_step(s, pawn_cap(side, 1));
    if on_board(t0) {
        lemma_made_on_board(s, t0, pieces[t0], true, piece.promotion());
        lemma_made_on_board(s, t0, pieces[t0], false, Piece::Empty);
    }
    if on_board(t1) {
        lemma_made_on_board(s, t1, pieces[t1], true, piece.promotion());
        lemma_made_on_board(s, t1, pieces[t1], false, Piece::Empty);
    }
    if on_board(t2) {
        lemma_made_on_board(s, t2, pieces[t2], true, piece.promotion());
        lemma_made_on_board(s, t2, pieces[t2], false, Piece::Empty);
    }
    let a = pawn_push(pieces, s, piece, side, false);
    let a2 = pawn_push(pieces, s, piece, side, true);
    let b = pawn_capture(pieces, s, piece, side, 0);
    let c = pawn_capture(pieces, s, piece, side, 1);
    assert(all_on_board(a));
    assert(all_on_board(a2));
    assert(all_on_board(b));
    assert(all_on_board(c));
    lemma_concat_on_board(a, b);
    lemma_concat_on_board(a + b, c);
    lemma_concat_on_board(b, c);
    lemma_concat_on_board(b + c, a2);
}

proof fn lemma_leaper_on_board(pieces: Seq<Piece>, s: int, piece: Piece, side: Color, dirs: Seq<i32>, n: int, captures_only: bool)
    requires
        on_board(s),
    ensures
        all_on_board(leaper_moves(pieces, s, piece, side, dirs, n, captures_only)),
    decreases n,
{
    if n > 0 {
        lemma_leaper_on_board(pieces, s, piece, side, dirs, n - 1, captures_only);
        let t = spec_step(s, dirs[n - 1] as int);
        if on_board(t) {
            lemma_made_on_board(s, t, Piece::Empty, false, Piece::Empty);
            lemma_made_on_board(s, t, pieces[t], false, Piece::Empty);
        }
        lemma_concat_on_board(
            leaper_moves(pieces, s, piece, side, dirs, n - 1, captures_only),
            leaper_one(pieces, s, piece, side, dirs[n - 1] as int, captures_only),
        );
    }
}

proof fn lemma_ray_on_board(pieces: Seq<Piece>, s: int, piece: Piece, side: Color, t: int, d: int, dist: int, min_dist: int, captures_only: bool)
    requires
        on_board(s),
    ensures
        all_on_board(ray_moves(pieces, s, piece, side, t, d, dist, min_dist, captures_only)),
    decreases ray_measure(t, d),
{
    if d == 0 || !on_board(t) {
    } else {
        let next = spec_step(t, d);
        lemma_made_on_board(s, t, Piece::Empty, false, Piece::Empty);
        lemma_made_on_board(s, t, pieces[t], false, Piece::Empty);
        if !can_enter(piece, t, side) || pieces[t] == Piece::Empty {
            assert(ray_measure(next, d) < ray_measure(t, d)) by {
                if on_board(next) {
                    assert(next == t + d);
                }
            }
            lemma_ray_on_board(pieces, s, piece, side, next, d, dist + 1, min_dist, captures_only);
            if can_enter(piece, t, side) {
                let first: Seq<Move> = if dist >= min_dist && !captures_only {
                    seq![spec_make_move(s as usize, t as usize, Piece::Empty, false, Piece::Empty)]
                } else {
                    seq![]
                };
                lemma_concat_on_board(first, ray_moves(pieces, s, piece, side, next, d, dist + 1, min_dist, captures_only));
            }
        }
    }
}

proof fn lemma_rider_on_board(pieces: Seq<Piece>, s: int, piece: Piece, side: Color, dirs: Seq<i32>, n: int, min_dist: int, captures_only: bool)
    requires
        on_board(s),
    ensures
        all_on_board(rider_moves(pieces, s, piece, side, dirs, n, min_dist, captures_only)),
    decreases n,
{
    if n > 0 {
        lemma_rider_on_board(pieces, s, piece, side, dirs, n - 1, min_dist, captures_only);
        let d = dirs[n - 1] as int;
        lemma_ray_on_board(pieces, s, piece, side, spec_step(s, d), d, 1, min_dist, captures_only);
        lemma_concat_on_board(
            rider_moves(pieces, s, piece, side, dirs, n - 1, min_dist, captures_only),
            ray_moves(pieces, s, piece, side, spec_step(s, d), d, 1, min_dist, captures_only),
        );
    }
}

proof fn lemma_giraffe_on_board(pieces: Seq<Piece>, s: int, piece: Piece, side: Color, n: int, captures_only: bool)
    requires
        on_board(s),
    ensures
        all_on_board(giraffe_moves(pieces, s, piece, side, n, captures_only)),
    decreases n,
{
    if n > 0 {
        lemma_giraffe_on_board(pieces, s, piece, side, n - 1, captures_only);
        let i = n - 1;
        lemma_ray_on_board(pieces, s, piece, side, spec_step(s, GIRAFFE_DIRS@[i] as int), GIRAFFE_SLIDE@[i] as int, 1, 1, captures_only);
        lemma_concat_on_board(
            giraffe_moves(pieces, s, piece, side, n - 1, captures_only),
            giraffe_path_moves(pieces, s, piece, side, i, captures_only),
        );
    }
}

proof fn lemma_square_on_board(b: BoardView, k: int, captures_only: bool)
    requires
        0 <= k < 110,
    ensures
        all_on_board(square_moves(b, k, captures_only)),
{
    let s = scan_square(k);
    crate::board::lemma_scan_square(k);
    let piece = b.pieces[s];
    lemma_pawn_on_board(b.pieces, s, piece, b.side);
    lemma_rider_on_board(b.pieces, s, piece, b.side, ROOK_DIRS@, 4, 1, captures_only);
    lemma_rider_on_board(b.pieces, s, piece, b.side, MINISTER_DIRS@, 4, 2, captures_only);
    lemma_giraffe_on_board(b.pieces, s, piece, b.side, 8, captures_only);
    lemma_leaper_on_board(b.pieces, s, piece, b.side, KNIGHT_DIRS@, 8, captures_only);
    lemma_leaper_on_board(b.pieces, s, piece, b.side, MINISTER_DIRS@, 4, captures_only);
    lemma_leaper_on_board(b.pieces, s, piece, b.side, KING_DIRS@, 8, captures_only);
    lemma_leaper_on_board(b.pieces, s, piece, b.side, ADVISOR_DIRS@, 4, captures_only);
    lemma_leaper_on_board(b.pieces, s, piece, b.side, ELEPHANT_DIRS@, 8, captures_only);
    lemma_leaper_on_board(b.pieces, s, piece, b.side, CAMEL_DIRS@, 8, captures_only);
    lemma_leaper_on_board(b.pieces, s, piece, b.side, WARENGINE_DIRS@, 4, captures_only);
}

proof fn lemma_upto_on_board(b: BoardView, n: int, captures_only: bool)
    requires
        n <= 110,
    ensures
        all_on_board(moves_upto(b, n, captures_only)),
    decreases n,
{
    if n > 0 {
        lemma_upto_on_board(b, n - 1, captures_only);
        lemma_square_on_board(b, n - 1, captures_only);
        lemma_concat_on_board(moves_upto(b, n - 1, captures_only), square_moves(b, n - 1, captures_only));
    }
}

proof fn lemma_safe_on_board(b: BoardView, ms: Seq<Move>, n: int)
    requires
        all_on_board(ms),
        n <= ms.len(),
    ensures
        all_on_board(safe_moves(b, ms, n)),
    decreases n,
{
    if n > 0 {
        lemma_safe_on_board(b, ms, n - 1);
        assert(on_board_move(ms[n - 1]));
        let prev = safe_moves(b, ms, n - 1);
        assert forall|i: int| 0 <= i < prev.push(ms[n - 1]).len() implies #[trigger] on_board_move(prev.push(ms[n - 1])[i]) by {
            if i < prev.len() {
                assert(on_board_move(prev[i]));
            }
        }
    }
}

/// Every generated move, legal or pseudo-legal, capture or not, goes from a
/// playing square to a playing square.
pub proof fn lemma_moves_on_board(b: BoardView)
    ensures
        all_on_board(pseudo_moves(b)),
        all_on_board(pseudo_captures(b)),
        all_on_board(spec_legal_moves(b)),
        all_on_board(spec_legal_captures(b)),
{
    lemma_upto_on_board(b, 110, false);
    lemma_upto_on_board(b, 110, true);
    lemma_safe_on_board(b, pseudo_moves(b), pseudo_moves(b).len() as int);
    lemma_safe_on_board(b, pseudo_captures(b), pseudo_captures(b).len() as int);
}

// ─── Moves move a piece elsewhere ───────────────────────────────

/// The move takes a piece from its origin to another square, and a promotion
/// names a piece.
pub open spec fn well_made(pieces: Seq<Piece>, m: Move) -> bool {
    &&& spec_mv_from(m) != spec_mv_to(m)
    &&& pieces[spec_mv_from(m)] != Piece::Empty
    &&& spec_mv_is_promotion(m) ==> spec_mv_promoted_to(m) != Piece::Empty
}

pub open spec fn all_well_made(pieces: Seq<Piece>, ms: Seq<Move>) -> bool {
    forall|i: int| 0 <= i < ms.len() ==> #[trigger] well_made(pieces, ms[i])
}

proof fn lemma_concat_well(pieces: Seq<Piece>, a: Seq<Move>, b: Seq<Move>)
    requires
        all_well_made(pieces, a),
        all_well_made(pieces, b),
    ensures
        all_well_made(pieces, a + b),
{
    assert forall|i: int| 0 <= i < (a + b).len() implies #[trigger] well_made(pieces, (a + b)[i]) by {
        if i < a.len() {
            assert(well_made(pieces, a[i]));
        } else {
            assert(well_made(pieces, b[i - a.len()]));
        }
    }
}

proof fn lemma_made_well(pieces: Seq<Piece>, s: int, t: int, captured: Piece, promotion: bool, promoted_to: Piece)
    requires
        on_board(s),
        on_board(t),
        s != t,
        pieces[s] != Piece::Empty,
        promotion ==> promoted_to != Piece::Empty,
    ensures
        all_well_made(pieces, seq![spec_make_move(s as usize, t as usize, captured, promotion, promoted_to)]),
{
    lemma_move_fields(s as usize, t as usize, captured, promotion, promoted_to);
    let m = spec_make_move(s as usize, t as usize, captured, promotion, promoted_to);
    assert(seq![m][0] == m);
    assert(well_made(pieces, m));
}

proof fn lemma_pawn_well(pieces: Seq<Piece>, s: int, piece: Piece, side: Color)
    requires
        on_board(s),
        piece == pieces[s],
        piece != Piece::Empty,
        piece.pawn(),
    ensures
        all_well_made(pieces, pawn_moves(pieces, s, piece, side)),
        all_well_made(pieces, pawn_captures(pieces, s, piece, side)),
{
    crate::types::lemma_promotion(piece);
    let t0 = spec_step(s, pawn_forward(side));
    let t1 = spec_step(s, pawn_cap(side, 0));
    let t2 = spec_step(s, pawn_cap(side, 1));
    if on_board(t0) {
        lemma_made_well(pieces, s, t0, pieces[t0], true, piece.promotion());
        lemma_made_well(pieces, s, t0, pieces[t0], false, Piece::Empty);
    }
    if on_board(t1) {
        lemma_made_well(pieces, s, t1, pieces[t1], true, piece.promotion());
        lemma_made_well(pieces, s, t1, pieces[t1], false, Piece::Empty);
    }
    if on_board(t2) {
        lemma_made_well(pieces, s, t2, pieces[t2], true, piece.promotion());
        lemma_made_well(pieces, s, t2, pieces[t2], false, Piece::Empty);
    }
    let a = pawn_push(pieces, s, piece, side, false);
    let a2 = pawn_push(pieces, s, piece, side, true);
    let b = pawn_capture(pieces, s, piece, side, 0);
    let c = pawn_capture(pieces, s, piece, side, 1);
    assert(all_well_made(pieces, a));
    assert(all_well_made(pieces, a2));
    assert(all_well_made(pieces, b));
    assert(all_well_made(pieces, c));
    lemma_concat_well(pieces, a, b);
    lemma_concat_well(pieces, a + b, c);
    lemma_concat_well(pieces, b, c);
    lemma_concat_well(pieces, b + c, a2);
}

proof fn lemma_leaper_well(pieces: Seq<Piece>, s: int, piece: Piece, side: Color, dirs: Seq<i32>, n: int, captures_only: bool)
    requires
        on_board(s),
        pieces[s] != Piece::Empty,
        n <= dirs.len(),
        forall|k: int| 0 <= k < dirs.len() ==> #[trigger] dirs[k] != 0,
    ensures
        all_well_made(pieces, leaper_moves(pieces, s, piece, side, dirs, n, captures_only)),
    decreases n,
{
    if n > 0 {
        lemma_leaper_well(pieces, s, piece, side, dirs, n - 1, captures_only);
        let d = dirs[n - 1] as int;
        let t = spec_step(s, d);
        if on_board(t) {
            assert(t == s + d);
            lemma_made_well(pieces, s, t, Piece::Empty, false, Piece::Empty);
            lemma_made_well(pieces, s, t, pieces[t], false, Piece::Empty);
        }
        lemma_concat_well(
            pieces,
            leaper_moves(pieces, s, piece, side, dirs, n - 1, captures_only),
            leaper_one(pieces, s, piece, side, d, captures_only),
        );
    }
}

/// Along a ray, squares move away from the origin: in the direction of the
/// step, or, for a sideways step, on another row.
pub open spec fn ray_away(s: int, t: int, d: int) -> bool {
    ||| d > 0 && t > s
    ||| d < 0 && t < s
    ||| (d == 1 || d == -1) && t / 15 != s / 15
}

proof fn lemma_sideways_row(t: int, d: int)
    requires
        on_board(t),
        on_board(t + d),
        d == 1 || d == -1,
    ensures
        (t + d) / 15 == t / 15,
{
}

proof fn lemma_ray_well(pieces: Seq<Piece>, s: int, piece: Piece, side: Color, t: int, d: int, dist: int, min_dist: int, captures_only: bool)
    requires
        on_board(s),
        pieces[s] != Piece::Empty,
        on_board(t) && d != 0 ==> ray_away(s, t, d),
    ensures
        all_well_made(pieces, ray_moves(pieces, s, piece, side, t, d, dist, min_dist, captures_only)),
    decreases ray_measure(t, d),
{
    if d == 0 || !on_board(t) {
    } else {
        let next = spec_step(t, d);
        assert(t != s);
        lemma_made_well(pieces, s, t, Piece::Empty, false, Piece::Empty);
        lemma_made_well(pieces, s, t, pieces[t], false, Piece::Empty);
        if !can_enter(piece, t, side) || pieces[t] == Piece::Empty {
            assert(ray_measure(next, d) < ray_measure(t, d)) by {
                if on_board(next) {
                    assert(next == t + d);
                }
            }
            if on_board(next) {
                assert(next == t + d);
                if d == 1 || d == -1 {
                    lemma_sideways_row(t, d);
                }
                assert(ray_away(s, next, d));
            }
            lemma_ray_well(pieces, s, piece, side, next, d, dist + 1, min_dist, captures_only);
            if can_enter(piece, t, side) {
                let first: Seq<Move> = if dist >= min_dist && !captures_only {
                    seq![spec_make_move(s as usize, t as usize, Piece::Empty, false, Piece::Empty)]
                } else {
                    seq![]
                };
                lemma_concat_well(pieces, first, ray_moves(pieces, s, piece, side, next, d, dist + 1, min_dist, captures_only));
            }
        }
    }
}

proof fn lemma_rider_well(pieces: Seq<Piece>, s: int, piece: Piece, side: Color, dirs: Seq<i32>, n: int, min_dist: int, captures_only: bool)
    requires
        on_board(s),
        pieces[s] != Piece::Empty,
        n <= dirs.len(),
    ensures
        all_well_made(pieces, rider_moves(pieces, s, piece, side, dirs, n, min_dist, captures_only)),
    decreases n,
{
    if n > 0 {
        lemma_rider_well(pieces, s, piece, side, dirs, n - 1, min_dist, captures_only);
        let d = dirs[n - 1] as int;
        let t = spec_step(s, d);
        if on_board(t) {
            assert(t == s + d);
        }
        lemma_ray_well(pieces, s, piece, side, t, d, 1, min_dist, captures_only);
        lemma_concat_well(
            pieces,
            rider_moves(pieces, s, piece, side, dirs, n - 1, min_dist, captures_only),
            ray_moves(pieces, s, piece, side, t, d, 1, min_dist, captures_only),
        );
    }
}

proof fn lemma_giraffe_start(s: int, i: int)
    requires
        on_board(s),
        0 <= i < 8,
        on_board(spec_step(s, GIRAFFE_DIRS@[i] as int)),
    ensures
        ray_away(s, spec_step(s, GIRAFFE_DIRS@[i] as int), GIRAFFE_SLIDE@[i] as int),
{
    let t = spec_step(s, GIRAFFE_DIRS@[i] as int);
    assert(t == s + GIRAFFE_DIRS@[i]);
    if i == 3 {
        assert(GIRAFFE_DIRS@[i] == -11 && GIRAFFE_SLIDE@[i] == 1);
        assert(t / 15 != s / 15);
    } else if i == 4 {
        assert(GIRAFFE_DIRS@[i] == 11 && GIRAFFE_SLIDE@[i] == -1);
        assert(t / 15 != s / 15);
    } else {
        assert(i == 0 || i == 1 || i == 2 || i == 5 || i == 6 || i == 7);
    }
}

proof fn lemma_giraffe_well(pieces: Seq<Piece>, s: int, piece: Piece, side: Color, n: int, captures_only: bool)
    requires
        on_board(s),
        pieces[s] != Piece::Empty,
        n <= 8,
    ensures
        all_well_made(pieces, giraffe_moves(pieces, s, piece, side, n, captures_only)),
    decreases n,
{
    if n > 0 {
        lemma_giraffe_well(pieces, s, piece, side, n - 1, captures_only);
        let i = n - 1;
        let t = spec_step(s, GIRAFFE_DIRS@[i] as int);
        if on_board(t) {
            lemma_giraffe_start(s, i);
        }
        lemma_ray_well(pieces, s, piece, side, t, GIRAFFE_SLIDE@[i] as int, 1, 1, captures_only);
        lemma_concat_well(
            pieces,
            giraffe_moves(pieces, s, piece, side, n - 1, captures_only),
            giraffe_path_moves(pieces, s, piece, side, i, captures_only),
        );
    }
}

proof fn lemma_dirs_nonzero()
    ensures
        forall|k: int| 0 <= k < 8 ==> #[trigger] KNIGHT_DIRS@[k] != 0,
        forall|k: int| 0 <= k < 4 ==> #[trigger] MINISTER_DIRS@[k] != 0,
        forall|k: int| 0 <= k < 8 ==> #[trigger] KING_DIRS@[k] != 0,
        forall|k: int| 0 <= k < 4 ==> #[trigger] ADVISOR_DIRS@[k] != 0,
        forall|k: int| 0 <= k < 8 ==> #[trigger] ELEPHANT_DIRS@[k] != 0,
        forall|k: int| 0 <= k < 8 ==> #[trigger] CAMEL_DIRS@[k] != 0,
        forall|k: int| 0 <= k < 4 ==> #[trigger] WARENGINE_DIRS@[k] != 0,
{
}

proof fn lemma_square_well(b: BoardView, k: int, captures_only: bool)
    requires
        0 <= k < 110,
    ensures
        all_well_made(b.pieces, square_moves(b, k, captures_only)),
{
    let s = scan_square(k);
    crate::board::lemma_scan_square(k);
    let piece = b.pieces[s];
    if piece != Piece::Empty && piece.side() == Some(b.side) {
        lemma_dirs_nonzero();
        if piece.pawn() {
            lemma_pawn_well(b.pieces, s, piece, b.side);
        } else {
            lemma_rider_well(b.pieces, s, piece, b.side, ROOK_DIRS@, 4, 1, captures_only);
            lemma_rider_well(b.pieces, s, piece, b.side, MINISTER_DIRS@, 4, 2, captures_only);
            lemma_giraffe_well(b.pieces, s, piece, b.side, 8, captures_only);
            lemma_leaper_well(b.pieces, s, piece, b.side, KNIGHT_DIRS@, 8, captures_only);
            lemma_leaper_well(b.pieces, s, piece, b.side, MINISTER_DIRS@, 4, captures_only);
            lemma_leaper_well(b.pieces, s, piece, b.side, KING_DIRS@, 8, captures_only);
            lemma_leaper_well(b.pieces, s, piece, b.side, ADVISOR_DIRS@, 4, captures_only);
            lemma_leaper_well(b.pieces, s, piece, b.side, ELEPHANT_DIRS@, 8, captures_only);
            lemma_leaper_well(b.pieces, s, piece, b.side, CAMEL_DIRS@, 8, captures_only);
            lemma_leaper_well(b.pieces, s, piece, b.side, WARENGINE_DIRS@, 4, captures_only);
        }
    }
}

proof fn lemma_upto_well(b: BoardView, n: int, captures_only: bool)
    requires
        n <= 110,
    ensures
        all_well_made(b.pieces, moves_upto(b, n, captures_only)),
    decreases n,
{
    if n > 0 {
        lemma_upto_well(b, n - 1, captures_only);
        lemma_square_well(b, n - 1, captures_only);
        lemma_concat_well(b.pieces, moves_upto(b, n - 1, captures_only), square_moves(b, n - 1, captures_only));
    }
}

// ─── Generation ─────────────────────────────────────────────────

/// All pseudo-legal moves for the side to move.
pub fn generate_moves(board: &Board) -> (moves: Vec<Move>)
    ensures
        moves@ == pseudo_moves(board@),
        all_ok(board@.pieces, moves@),
{
    generate(board, false)
}

/// Pseudo-legal captures and promotions, for quiescence search.
pub fn generate_captures(board: &Board) -> (moves: Vec<Move>)
    ensures
        moves@ == pseudo_captures(board@),
        all_ok(board@.pieces, moves@),
{
    generate(board, true)
}

fn generate(board: &Board, captures_only: bool) -> (moves: Vec<Move>)
    ensures
        moves@ == moves_upto(board@, 110, captures_only),
        all_ok(board@.pieces, moves@),
{
    let mut moves: Vec<Move> = Vec::new();
    let side = board.side;
    let mut rank: i32 = 1;
    while rank <= 10
        invariant
            1 <= rank <= 11,
            side == board.side,
            moves@ == moves_upto(board@, (rank - 1) * 11, captures_only),
            all_ok(board@.pieces, moves@),
        decreases 11 - rank,
    {
        let mut file: i32 = 1;
        while file <= 11
            invariant
                1 <= rank <= 10,
                1 <= file <= 12,
                side == board.side,
                moves@ == moves_upto(board@, (rank - 1) * 11 + file - 1, captures_only),
                all_ok(board@.pieces, moves@),
            decreases 12 - file,
        {
            proof {
                lemma_scan_index(file as int, rank as int);
                lemma_sq_coords(file as int, rank as int);
            }
            let s = sq(file, rank);
            let piece = board.pieces[s];
            if piece != Piece::Empty && piece.color() == Some(side) {
                if piece.is_pawn() {
                    if captures_only {
                        gen_pawn_captures(board, s, piece, side, &mut moves);
                    } else {
                        gen_pawn_moves(board, s, piece, side, &mut moves);
                    }
                } else {
                    if captures_only {
                        gen_piece_captures(board, s, piece, side, &mut moves);
                    } else {
                        gen_piece_moves(board, s, piece, side, &mut moves);
                    }
                }
            }
            assert(moves@ =~= moves_upto(board@, (rank - 1) * 11 + file, captures_only));
            file += 1;
        }
        rank += 1;
    }
    moves
}

// ─── Citadel restrictions ─────────────────────────────────────────

fn can_enter_square(piece: Piece, to_sq: usize, side: Color) -> (r: bool)
    ensures
        r == can_enter(piece, to_sq as int, side),
{
    if to_sq != WHITE_CITADEL && to_sq != BLACK_CITADEL {
        return true;
    }
    if side == Color::White {
        if to_sq == WHITE_CITADEL {
            return false;
        }
        if to_sq == BLACK_CITADEL {
            return piece == Piece::WKing || piece == Piece::WAdKing || piece == Piece::WPrince;
        }
    } else {
        if to_sq == BLACK_CITADEL {
            return false;
        }
        if to_sq == WHITE_CITADEL {
            return piece == Piece::BKing || piece == Piece::BAdKing || piece == Piece::BPrince;
        }
    }
    false
}

// ─── Pawn moves ──────────────────────────────────────────────────

/// Pushes the pawn move (promotion on the last rank) from `s` to `t`.
fn push_pawn_move(board: &Board, s: usize, t: usize, piece: Piece, side: Color, moves: &mut Vec<Move>)
    requires
        s < 256,
        on_board(t as int),
        t < MAILBOX_SIZE,
        piece == board@.pieces[s as int],
        piece.pawn(),
        all_ok(board@.pieces, old(moves)@),
    ensures
        final(moves)@ == old(moves)@.push(pawn_move_to(board@.pieces, s as int, t as int, piece, promo_rank(side))),
        all_ok(board@.pieces, final(moves)@),
{
    let promo = if side == Color::White { 10 } else { 1 };
    let target = board.pieces[t];
    let m = if rank_brd(t) == promo {
        let prom = piece.promoted();
        proof {
            lemma_move_fields(s, t, target, true, prom);
            lemma_demote_promotion(piece);
        }
        make_move(s, t, target, true, prom)
    } else {
        proof {
            lemma_move_fields(s, t, target, false, Piece::Empty);
        }
        make_move(s, t, target, false, Piece::Empty)
    };
    moves.push(m);
    proof {
        assert forall|i: int| 0 <= i < moves@.len() implies #[trigger] move_ok(board@.pieces, moves@[i]) by {
            if i < old(moves)@.len() {
                assert(move_ok(board@.pieces, old(moves)@[i]));
            }
        }
    }
}

fn gen_pawn_push(board: &Board, s: usize, piece: Piece, side: Color, promo_only: bool, moves: &mut Vec<Move>)
    requires
        s < 256,
        piece == board@.pieces[s as int],
        piece.pawn(),
        all_ok(board@.pieces, old(moves)@),
    ensures
        final(moves)@ == old(moves)@ + pawn_push(board@.pieces, s as int, piece, side, promo_only),
        all_ok(board@.pieces, final(moves)@),
{
    let forward: i32 = if side == Color::White { 15 } else { -15 };
    let promo = if side == Color::White { 10 } else { 1 };
    let fwd = step(s, forward);
    if !is_off_board(fwd) && can_enter_square(piece, fwd, side) && board.pieces[fwd] == Piece::Empty
        && (!promo_only || rank_brd(fwd) == promo) {
        push_pawn_move(board, s, fwd, piece, side, moves);
        assert(final(moves)@ =~= old(moves)@ + pawn_push(board@.pieces, s as int, piece, side, promo_only));
    } else {
        assert(old(moves)@ =~= old(moves)@ + pawn_push(board@.pieces, s as int, piece, side, promo_only));
    }
}

fn gen_pawn_capture(board: &Board, s: usize, piece: Piece, side: Color, i: usize, moves: &mut Vec<Move>)
    requires
        s < 256,
        i < 2,
        piece == board@.pieces[s as int],
        piece.pawn(),
        all_ok(board@.pieces, old(moves)@),
    ensures
        final(moves)@ == old(moves)@ + pawn_capture(board@.pieces, s as int, piece, side, i as int),
        all_ok(board@.pieces, final(moves)@),
{
    let d: i32 = if side == Color::White {
        if i == 0 { 14 } else { 16 }
    } else {
        if i == 0 { -14 } else { -16 }
    };
    let ts = step(s, d);
    if !is_off_board(ts) && can_enter_square(piece, ts, side) {
        let target = board.pieces[ts];
        if target != Piece::Empty && target.color() != Some(side) {
            push_pawn_move(board, s, ts, piece, side, moves);
            assert(final(moves)@ =~= old(moves)@ + pawn_capture(board@.pieces, s as int, piece, side, i as int));
            return;
        }
    }
    assert(old(moves)@ =~= old(moves)@ + pawn_capture(board@.pieces, s as int, piece, side, i as int));
}

#[verifier::rlimit(40)]
fn gen_pawn_moves(board: &Board, s: usize, piece: Piece, side: Color, moves: &mut Vec<Move>)
    requires
        s < 256,
        piece == board@.pieces[s as int],
        piece.pawn(),
        all_ok(board@.pieces, old(moves)@),
    ensures
        final(moves)@ == old(moves)@ + pawn_moves(board@.pieces, s as int, piece, side),
        all_ok(board@.pieces, final(moves)@),
{
    gen_pawn_push(board, s, piece, side, false, moves);
    gen_pawn_capture(board, s, piece, side, 0, moves);
    gen_pawn_capture(board, s, piece, side, 1, moves);
    assert(final(moves)@ =~= old(moves)@ + pawn_moves(board@.pieces, s as int, piece, side));
}

#[verifier::rlimit(40)]
fn gen_pawn_captures(board: &Board, s: usize, piece: Piece, side: Color, moves: &mut Vec<Move>)
    requires
        s < 256,
        piece == board@.pieces[s as int],
        piece.pawn(),
        all_ok(board@.pieces, old(moves)@),
    ensures
        final(moves)@ == old(moves)@ + pawn_captures(board@.pieces, s as int, piece, side),
        all_ok(board@.pieces, final(moves)@),
{
    gen_pawn_capture(board, s, piece, side, 0, moves);
    gen_pawn_capture(board, s, piece, side, 1, moves);
    gen_pawn_push(board, s, piece, side, true, moves);
    assert(final(moves)@ =~= old(moves)@ + pawn_captures(board@.pieces, s as int, piece, side));
}

// ─── Piece moves ─────────────────────────────────────────────────

fn gen_piece_moves(board: &Board, s: usize, piece: Piece, side: Color, moves: &mut Vec<Move>)
    requires
        s < 256,
        piece == board@.pieces[s as int],
        all_ok(board@.pieces, old(moves)@),
    ensures
        final(moves)@ == old(moves)@ + piece_moves(board@.pieces, s as int, piece, side, false),
        all_ok(board@.pieces, final(moves)@),
{
    gen_piece(board, s, piece, side, false, moves)
}

fn gen_piece_captures(board: &Board, s: usize, piece: Piece, side: Color, moves: &mut Vec<Move>)
    requires
        s < 256,
        piece == board@.pieces[s as int],
        all_ok(board@.pieces, old(moves)@),
    ensures
        final(moves)@ == old(moves)@ + piece_moves(board@.pieces, s as int, piece, side, true),
        all_ok(board@.pieces, final(moves)@),
{
    gen_piece(board, s, piece, side, true, moves)
}

fn gen_piece(board: &Board, s: usize, piece: Piece, side: Color, captures_only: bool, moves: &mut Vec<Move>)
    requires
        s < 256,
        piece == board@.pieces[s as int],
        all_ok(board@.pieces, old(moves)@),
    ensures
        final(moves)@ == old(moves)@ + piece_moves(board@.pieces, s as int, piece, side, captures_only),
        all_ok(board@.pieces, final(moves)@),
{
    match piece {
        Piece::WRook | Piece::BRook => gen_rider(board, s, piece, side, &ROOK_DIRS, 1, captures_only, moves),
        Piece::WKnight | Piece::BKnight => gen_leaper(board, s, piece, side, &KNIGHT_DIRS, captures_only, moves),
        Piece::WCatapult | Piece::BCatapult => gen_rider(board, s, piece, side, &MINISTER_DIRS, 2, captures_only, moves),
        Piece::WGiraffe | Piece::BGiraffe => giraffe_helper(board, s, piece, side, moves, captures_only),
        Piece::WMinister | Piece::BMinister => gen_leaper(board, s, piece, side, &MINISTER_DIRS, captures_only, moves),
        Piece::WKing | Piece::BKing | Piece::WPrince | Piece::BPrince | Piece::WAdKing | Piece::BAdKing =>
            gen_leaper(board, s, piece, side, &KING_DIRS, captures_only, moves),
        Piece::WAdvisor | Piece::BAdvisor => gen_leaper(board, s, piece, side, &ADVISOR_DIRS, captures_only, moves),
        Piece::WElephant | Piece::BElephant => gen_leaper(board, s, piece, side, &ELEPHANT_DIRS, captures_only, moves),
        Piece::WCamel | Piece::BCamel => gen_leaper(board, s, piece, side, &CAMEL_DIRS, captures_only, moves),
        Piece::WWarengine | Piece::BWarengine => gen_leaper(board, s, piece, side, &WARENGINE_DIRS, captures_only, moves),
        _ => {
            assert(old(moves)@ =~= old(moves)@ + piece_moves(board@.pieces, s as int, piece, side, captures_only));
        },
    }
}

/// Pushes a non-promoting move from `s` to `t`, capturing what stands on `t`.
fn push_plain(s: usize, t: usize, target: Piece, pieces: Ghost<Seq<Piece>>, moves: &mut Vec<Move>)
    requires
        s < 256,
        t < 256,
        all_ok(pieces@, old(moves)@),
    ensures
        final(moves)@ == old(moves)@.push(spec_make_move(s, t, target, false, Piece::Empty)),
        all_ok(pieces@, final(moves)@),
{
    proof {
        lemma_move_fields(s, t, target, false, Piece::Empty);
    }
    let m = if target == Piece::Empty { make_quiet(s, t) } else { make_capture(s, t, target) };
    moves.push(m);
    proof {
        assert forall|i: int| 0 <= i < moves@.len() implies #[trigger] move_ok(pieces@, moves@[i]) by {
            if i < old(moves)@.len() {
                assert(move_ok(pieces@, old(moves)@[i]));
            }
        }
    }
}

fn gen_leaper(board: &Board, s: usize, piece: Piece, side: Color, dirs: &[i32], captures_only: bool, moves: &mut Vec<Move>)
    requires
        s < 256,
        forall|i: int| 0 <= i < dirs@.len() ==> -100 <= #[trigger] dirs@[i] <= 100,
        all_ok(board@.pieces, old(moves)@),
    ensures
        final(moves)@ == old(moves)@ + leaper_moves(board@.pieces, s as int, piece, side, dirs@, dirs@.len() as int, captures_only),
        all_ok(board@.pieces, final(moves)@),
{
    let mut i: usize = 0;
    while i < dirs.len()
        invariant
            s < 256,
            i <= dirs@.len(),
            forall|i: int| 0 <= i < dirs@.len() ==> -100 <= #[trigger] dirs@[i] <= 100,
            moves@ == old(moves)@ + leaper_moves(board@.pieces, s as int, piece, side, dirs@, i as int, captures_only),
            all_ok(board@.pieces, moves@),
        decreases dirs@.len() - i,
    {
        let d = dirs[i];
        let ts = step(s, d);
        let ghost before = moves@;
        if !is_off_board(ts) && can_enter_square(piece, ts, side) {
            let target = board.pieces[ts];
            if target == Piece::Empty {
                if !captures_only {
                    push_plain(s, ts, target, Ghost(board@.pieces), moves);
                }
            } else if target.color() != Some(side) {
                push_plain(s, ts, target, Ghost(board@.pieces), moves);
            }
        }
        assert(moves@ =~= before + leaper_one(board@.pieces, s as int, piece, side, dirs@[i as int] as int, captures_only));
        assert(moves@ =~= old(moves)@ + leaper_moves(board@.pieces, s as int, piece, side, dirs@, i + 1, captures_only));
        i += 1;
    }
}

/// Rides the ray from `start` by `d`, pushing the moves `ray_moves` describes.
fn gen_ray(board: &Board, s: usize, piece: Piece, side: Color, start: usize, d: i32, min_dist: i32, captures_only: bool, moves: &mut Vec<Move>)
    requires
        s < 256,
        start < 400 || start == usize::MAX,
        -100 <= d <= 100,
        d != 0,
        1 <= min_dist <= 2,
        all_ok(board@.pieces, old(moves)@),
    ensures
        final(moves)@ == old(moves)@ + ray_moves(board@.pieces, s as int, piece, side, start as int, d as int, 1, min_dist as int, captures_only),
        all_ok(board@.pieces, final(moves)@),
{
    let mut ts = start;
    let mut dist: i32 = 1;
    while !is_off_board(ts)
        invariant
            s < 256,
            -100 <= d <= 100,
            d != 0,
            1 <= dist,
            dist + ray_measure(ts as int, d as int) <= 1 + ray_measure(start as int, d as int),
            ray_measure(start as int, d as int) <= 270,
            1 <= min_dist <= 2,
            moves@ + ray_moves(board@.pieces, s as int, piece, side, ts as int, d as int, dist as int, min_dist as int, captures_only)
                == old(moves)@ + ray_moves(board@.pieces, s as int, piece, side, start as int, d as int, 1, min_dist as int, captures_only),
            all_ok(board@.pieces, moves@),
        decreases ray_measure(ts as int, d as int),
    {
        let ghost before = moves@;
        if !can_enter_square(piece, ts, side) {
            ts = step(ts, d);
            dist += 1;
            continue;
        }
        let target = board.pieces[ts];
        if target == Piece::Empty {
            if dist >= min_dist && !captures_only {
                push_plain(s, ts, target, Ghost(board@.pieces), moves);
            }
        } else {
            if dist >= min_dist && target.color() != Some(side) {
                push_plain(s, ts, target, Ghost(board@.pieces), moves);
            }
            assert(moves@ =~= old(moves)@ + ray_moves(board@.pieces, s as int, piece, side, start as int, d as int, 1, min_dist as int, captures_only));
            return;
        }
        ts = step(ts, d);
        dist += 1;
    }
    assert(moves@ =~= old(moves)@ + ray_moves(board@.pieces, s as int, piece, side, start as int, d as int, 1, min_dist as int, captures_only));
}

#[verifier::rlimit(40)]
fn gen_rider(board: &Board, s: usize, piece: Piece, side: Color, dirs: &[i32], min_dist: i32, captures_only: bool, moves: &mut Vec<Move>)
    requires
        s < 256,
        forall|i: int| 0 <= i < dirs@.len() ==> -100 <= #[trigger] dirs@[i] <= 100 && dirs@[i] != 0,
        1 <= min_dist <= 2,
        all_ok(board@.pieces, old(moves)@),
    ensures
        final(moves)@ == old(moves)@ + rider_moves(board@.pieces, s as int, piece, side, dirs@, dirs@.len() as int, min_dist as int, captures_only),
        all_ok(board@.pieces, final(moves)@),
{
    let mut i: usize = 0;
    while i < dirs.len()
        invariant
            s < 256,
            i <= dirs@.len(),
            1 <= min_dist <= 2,
            forall|i: int| 0 <= i < dirs@.len() ==> -100 <= #[trigger] dirs@[i] <= 100 && dirs@[i] != 0,
            moves@ == old(moves)@ + rider_moves(board@.pieces, s as int, piece, side, dirs@, i as int, min_dist as int, captures_only),
            all_ok(board@.pieces, moves@),
        decreases dirs@.len() - i,
    {
        let d = dirs[i];
        let start = step(s, d);
        let ghost before = moves@;
        gen_ray(board, s, piece, side, start, d, min_dist, captures_only, moves);
        let ghost r = ray_moves(board@.pieces, s as int, piece, side, start as int, d as int, 1, min_dist as int, captures_only);
        assert(rider_moves(board@.pieces, s as int, piece, side, dirs@, i + 1, min_dist as int, captures_only)
            == rider_moves(board@.pieces, s as int, piece, side, dirs@, i as int, min_dist as int, captures_only) + r);
        assert(moves@ == before + r);
        assert(moves@ =~= old(moves)@ + rider_moves(board@.pieces, s as int, piece, side, dirs@, i + 1, min_dist as int, captures_only));
        i += 1;
    }
}

// ─── Giraffe ────────────────────────────────────────────────────

fn giraffe_helper(board: &Board, s: usize, piece: Piece, side: Color, moves: &mut Vec<Move>, captures_only: bool)
    requires
        s < 256,
        all_ok(board@.pieces, old(moves)@),
    ensures
        final(moves)@ == old(moves)@ + giraffe_moves(board@.pieces, s as int, piece, side, 8, captures_only),
        all_ok(board@.pieces, final(moves)@),
{
    let mut i: usize = 0;
    while i < 8
        invariant
            s < 256,
            i <= 8,
            moves@ == old(moves)@ + giraffe_moves(board@.pieces, s as int, piece, side, i as int, captures_only),
            all_ok(board@.pieces, moves@),
        decreases 8 - i,
    {
        let check1 = step(s, GIRAFFE_CHECK1[i]);
        let check2 = step(s, GIRAFFE_CHECK2[i]);
        let check3 = step(s, GIRAFFE_CHECK3[i]);
        let ghost before = moves@;
        if !is_off_board(check1) && !is_off_board(check2) && !is_off_board(check3) {
            if board.pieces[check1] == Piece::Empty && board.pieces[check2] == Piece::Empty
                && board.pieces[check3] == Piece::Empty {
                let start = step(s, GIRAFFE_DIRS[i]);
                gen_ray(board, s, piece, side, start, GIRAFFE_SLIDE[i], 1, captures_only, moves);
            }
        }
        assert(moves@ =~= before + giraffe_path_moves(board@.pieces, s as int, piece, side, i as int, captures_only));
        assert(moves@ =~= old(moves)@ + giraffe_moves(board@.pieces, s as int, piece, side, i + 1, captures_only));
        i += 1;
    }
}


// ─── Legal move filtering ────────────────────────────────────────

/// After `m`, the mover's royal square (if any) is not attacked.
pub open spec fn king_safe_after(b: BoardView, m: Move) -> bool {
    let a = b.make(m);
    match a.king_square(b.side) {
        Some(k) => !attacked(a, k as int, b.side.other()),
        None => true,
    }
}

/// The moves among the first `n` of `ms` after which the mover's royal piece is safe, in order.
pub open spec fn safe_moves(b: BoardView, ms: Seq<Move>, n: int) -> Seq<Move>
    decreases n,
{
    if n <= 0 {
        seq![]
    } else if king_safe_after(b, ms[n - 1]) {
        safe_moves(b, ms, n - 1).push(ms[n - 1])
    } else {
        safe_moves(b, ms, n - 1)
    }
}

/// Legal moves: the pseudo-legal moves that do not leave the mover's royal piece attacked.
pub open spec fn spec_legal_moves(b: BoardView) -> Seq<Move> {
    safe_moves(b, pseudo_moves(b), pseudo_moves(b).len() as int)
}

/// Legal captures and promotions.
pub open spec fn spec_legal_captures(b: BoardView) -> Seq<Move> {
    safe_moves(b, pseudo_captures(b), pseudo_captures(b).len() as int)
}

proof fn lemma_safe_moves_sound(b: BoardView, ms: Seq<Move>, n: int)
    requires
        0 <= n <= ms.len(),
    ensures
        forall|i: int| 0 <= i < safe_moves(b, ms, n).len() ==> king_safe_after(b, #[trigger] safe_moves(b, ms, n)[i])
            && ms.contains(safe_moves(b, ms, n)[i]),
    decreases n,
{
    if n > 0 {
        lemma_safe_moves_sound(b, ms, n - 1);
        let prev = safe_moves(b, ms, n - 1);
        if king_safe_after(b, ms[n - 1]) {
            assert forall|i: int| 0 <= i < prev.push(ms[n - 1]).len() implies king_safe_after(b, #[trigger] prev.push(ms[n - 1])[i])
                && ms.contains(prev.push(ms[n - 1])[i]) by {
                if i < prev.len() {
                    assert(prev.push(ms[n - 1])[i] == prev[i]);
                } else {
                    assert(ms[n - 1] == ms[n - 1]);
                }
            }
        }
    }
}

/// A legal move is a pseudo-legal move after which the mover's royal piece
/// (if it has one) is not attacked; the same holds of legal captures.
pub proof fn lemma_legal_moves_safe(b: BoardView, m: Move)
    ensures
        spec_legal_moves(b).contains(m) ==> pseudo_moves(b).contains(m) && king_safe_after(b, m),
        spec_legal_captures(b).contains(m) ==> pseudo_captures(b).contains(m) && king_safe_after(b, m),
{
    lemma_safe_moves_sound(b, pseudo_moves(b), pseudo_moves(b).len() as int);
    lemma_safe_moves_sound(b, pseudo_captures(b), pseudo_captures(b).len() as int);
    if spec_legal_moves(b).contains(m) {
        let i = choose|i: int| 0 <= i < spec_legal_moves(b).len() && spec_legal_moves(b)[i] == m;
        assert(king_safe_after(b, spec_legal_moves(b)[i]));
    }
    if spec_legal_captures(b).contains(m) {
        let i = choose|i: int| 0 <= i < spec_legal_captures(b).len() && spec_legal_captures(b)[i] == m;
        assert(king_safe_after(b, spec_legal_captures(b)[i]));
    }
}


/// Playing a legal move (or a legal capture) keeps the hash equal to the hash
/// computed from scratch: the incremental update of `make` is exact for every
/// move the generator produces.
pub proof fn lemma_legal_move_keeps_full_hash(b: BoardView, m: Move)
    requires
        b.wf(),
        b.hash == full_hash(b),
        spec_legal_moves(b).contains(m) || spec_legal_captures(b).contains(m),
    ensures
        b.make(m).hash == full_hash(b.make(m)),
{
    lemma_legal_moves_safe(b, m);
    lemma_upto_well(b, 110, false);
    lemma_upto_well(b, 110, true);
    if spec_legal_moves(b).contains(m) {
        let i = choose|i: int| 0 <= i < pseudo_moves(b).len() && pseudo_moves(b)[i] == m;
        assert(well_made(b.pieces, pseudo_moves(b)[i]));
    } else {
        let i = choose|i: int| 0 <= i < pseudo_captures(b).len() && pseudo_captures(b)[i] == m;
        assert(well_made(b.pieces, pseudo_captures(b)[i]));
    }
    lemma_make_keeps_full_hash(b, m);
}

/// Keeps the moves of `pseudo` that leave the mover's royal piece safe; the board
/// is left as it was.
fn filter_legal(board: &mut Board, pseudo: &Vec<Move>) -> (legal: Vec<Move>)
    requires
        old(board)@.wf(),
        all_ok(old(board)@.pieces, pseudo@),
    ensures
        final(board)@ == old(board)@,
        final(board).zobrist == old(board).zobrist,
        legal@ == safe_moves(old(board)@, pseudo@, pseudo@.len() as int),
        all_ok(old(board)@.pieces, legal@),
{
    let mut legal: Vec<Move> = Vec::new();
    let side = board.side;
    let ghost b0 = board@;
    let mut i: usize = 0;
    while i < pseudo.len()
        invariant
            i <= pseudo@.len(),
            board@ == b0,
            board.zobrist == old(board).zobrist,
            b0 == old(board)@,
            b0.wf(),
            side == b0.side,
            all_ok(b0.pieces, pseudo@),
            legal@ == safe_moves(b0, pseudo@, i as int),
            all_ok(b0.pieces, legal@),
        decreases pseudo@.len() - i,
    {
        let mv = pseudo[i];
        assert(move_ok(b0.pieces, pseudo@[i as int]));
        board.make_move(mv);
        let king = board.king_sq(side);
        proof {
            lemma_king_square(board@, side);
        }
        let in_check = match king {
            Some(ks) => is_attacked(board, ks, side.flip()),
            None => false,
        };
        board.unmake_move();
        proof {
            lemma_unmake_make(b0, mv);
        }
        if !in_check {
            let ghost prev = legal@;
            legal.push(mv);
            assert forall|j: int| 0 <= j < legal@.len() implies #[trigger] move_ok(b0.pieces, legal@[j]) by {
                if j < prev.len() {
                    assert(move_ok(b0.pieces, prev[j]));
                }
            }
        }
        i += 1;
    }
    legal
}

/// The legal moves of the side to move; the board is left unchanged.
pub fn legal_moves(board: &mut Board) -> (legal: Vec<Move>)
    requires
        old(board)@.wf(),
    ensures
        final(board)@ == old(board)@,
        final(board).zobrist == old(board).zobrist,
        legal@ == spec_legal_moves(old(board)@),
        all_ok(old(board)@.pieces, legal@),
{
    let pseudo = generate_moves(board);
    filter_legal(board, &pseudo)
}

/// The legal captures and promotions of the side to move; the board is left unchanged.
pub fn legal_captures(board: &mut Board) -> (legal: Vec<Move>)
    requires
        old(board)@.wf(),
    ensures
        final(board)@ == old(board)@,
        final(board).zobrist == old(board).zobrist,
        legal@ == spec_legal_captures(old(board)@),
        all_ok(old(board)@.pieces, legal@),
{
    let pseudo = generate_captures(board);
    filter_legal(board, &pseudo)
}

} // verus!
