use vstd::prelude::*;
use crate::types::{
    Color, Move, Piece, ADVISOR_DIRS, CAMEL_DIRS, ELEPHANT_DIRS, KING_DIRS, KNIGHT_DIRS, MINISTER_DIRS,
    ROOK_DIRS, WARENGINE_DIRS, GIRAFFE_DIRS, spec_make_move, spec_mv_from, spec_mv_to, lemma_move_fields,
    spec_mv_captured, spec_mv_is_promotion, spec_mv_promoted_to,
};
use crate::board::{on_board, main_square, scan_square, lemma_scan_square, lemma_scan_index, BoardView};
use crate::attack::{spec_step, ray_measure};
use crate::movegen::{
    can_enter, leaper_one, leaper_moves, ray_moves, rider_moves, giraffe_path_moves, giraffe_moves,
    piece_moves, pawn_push, pawn_capture, pawn_moves, pawn_captures, square_moves, moves_upto,
    pseudo_moves, safe_moves, king_safe_after, spec_legal_moves, spec_legal_captures,
    lemma_legal_moves_safe,
};

verus! {

// ─── Captures are among the moves ───────────────────────────────

/// Every move of `a` is a move of `c`.
pub open spec fn within(a: Seq<Move>, c: Seq<Move>) -> bool {
    forall|m: Move| #[trigger] a.contains(m) ==> c.contains(m)
}

proof fn lemma_within_concat(a1: Seq<Move>, a2: Seq<Move>, c1: Seq<Move>, c2: Seq<Move>)
    requires
        within(a1, c1),
        within(a2, c2),
    ensures
        within(a1 + a2, c1 + c2),
{
    assert forall|m: Move| #[trigger] (a1 + a2).contains(m) implies (c1 + c2).contains(m) by {
        let k = choose|k: int| 0 <= k < (a1 + a2).len() && (a1 + a2)[k] == m;
        if k < a1.len() {
            assert(a1[k] == m);
            assert(a1.contains(m));
            let j = choose|j: int| 0 <= j < c1.len() && c1[j] == m;
            assert((c1 + c2)[j] == m);
        } else {
            assert(a2[k - a1.len()] == m);
            assert(a2.contains(m));
            let j = choose|j: int| 0 <= j < c2.len() && c2[j] == m;
            assert((c1 + c2)[c1.len() + j] == m);
        }
    }
}

proof fn lemma_within_join(a1: Seq<Move>, a2: Seq<Move>, c: Seq<Move>)
    requires
        within(a1, c),
        within(a2, c),
    ensures
        within(a1 + a2, c),
{
    assert forall|m: Move| #[trigger] (a1 + a2).contains(m) implies c.contains(m) by {
        let k = choose|k: int| 0 <= k < (a1 + a2).len() && (a1 + a2)[k] == m;
        if k < a1.len() {
            assert(a1[k] == m);
            assert(a1.contains(m));
        } else {
            assert(a2[k - a1.len()] == m);
            assert(a2.contains(m));
        }
    }
}

proof fn lemma_within_parts(a: Seq<Move>, b: Seq<Move>)
    ensures
        within(a, a + b),
        within(b, a + b),
{
    assert forall|m: Move| #[trigger] a.contains(m) implies (a + b).contains(m) by {
        let k = choose|k: int| 0 <= k < a.len() && a[k] == m;
        assert((a + b)[k] == m);
    }
    assert forall|m: Move| #[trigger] b.contains(m) implies (a + b).contains(m) by {
        let k = choose|k: int| 0 <= k < b.len() && b[k] == m;
        assert((a + b)[a.len() + k] == m);
    }
}

proof fn lemma_leaper_within(pieces: Seq<Piece>, s: int, piece: Piece, side: Color, dirs: Seq<i32>, n: int)
    ensures
        within(leaper_moves(pieces, s, piece, side, dirs, n, true), leaper_moves(pieces, s, piece, side, dirs, n, false)),
    decreases n,
{
    if n > 0 {
        lemma_leaper_within(pieces, s, piece, side, dirs, n - 1);
        let d = dirs[n - 1] as int;
        let one_t = leaper_one(pieces, s, piece, side, d, true);
        let one_f = leaper_one(pieces, s, piece, side, d, false);
        assert(within(one_t, one_f)) by {
            assert forall|m: Move| #[trigger] one_t.contains(m) implies one_f.contains(m) by {
                assert(one_t.len() == 1 && one_t[0] == m);
                assert(one_f[0] == m);
            }
        }
        lemma_within_concat(
            leaper_moves(pieces, s, piece, side, dirs, n - 1, true),
            one_t,
            leaper_moves(pieces, s, piece, side, dirs, n - 1, false),
            one_f,
        );
    }
}

proof fn lemma_ray_within(pieces: Seq<Piece>, s: int, piece: Piece, side: Color, t: int, d: int, dist: int, min_dist: int)
    ensures
        within(
            ray_moves(pieces, s, piece, side, t, d, dist, min_dist, true),
            ray_moves(pieces, s, piece, side, t, d, dist, min_dist, false),
        ),
    decreases ray_measure(t, d),
{
    if d == 0 || !on_board(t) {
    } else {
        let next = spec_step(t, d);
        assert(ray_measure(next, d) < ray_measure(t, d)) by {
            if on_board(next) {
                assert(next == t + d);
            }
        }
        lemma_ray_within(pieces, s, piece, side, next, d, dist + 1, min_dist);
        let rest_t = ray_moves(pieces, s, piece, side, next, d, dist + 1, min_dist, true);
        let rest_f = ray_moves(pieces, s, piece, side, next, d, dist + 1, min_dist, false);
        if can_enter(piece, t, side) && pieces[t] == Piece::Empty {
            let first: Seq<Move> = if dist >= min_dist {
                seq![crate::types::spec_make_move(s as usize, t as usize, Piece::Empty, false, Piece::Empty)]
            } else {
                seq![]
            };
            assert(within(Seq::<Move>::empty(), first));
            lemma_within_concat(Seq::<Move>::empty(), rest_t, first, rest_f);
            assert(Seq::<Move>::empty() + rest_t =~= rest_t);
        }
    }
}

proof fn lemma_rider_within(pieces: Seq<Piece>, s: int, piece: Piece, side: Color, dirs: Seq<i32>, n: int, min_dist: int)
    ensures
        within(
            rider_moves(pieces, s, piece, side, dirs, n, min_dist, true),
            rider_moves(pieces, s, piece, side, dirs, n, min_dist, false),
        ),
    decreases n,
{
    if n > 0 {
        lemma_rider_within(pieces, s, piece, side, dirs, n - 1, min_dist);
        let d = dirs[n - 1] as int;
        lemma_ray_within(pieces, s, piece, side, spec_step(s, d), d, 1, min_dist);
        lemma_within_concat(
            rider_moves(pieces, s, piece, side, dirs, n - 1, min_dist, true),
            ray_moves(pieces, s, piece, side, spec_step(s, d), d, 1, min_dist, true),
            rider_moves(pieces, s, piece, side, dirs, n - 1, min_dist, false),
            ray_moves(pieces, s, piece, side, spec_step(s, d), d, 1, min_dist, false),
        );
    }
}

proof fn lemma_giraffe_within(pieces: Seq<Piece>, s: int, piece: Piece, side: Color, n: int)
    ensures
        within(giraffe_moves(pieces, s, piece, side, n, true), giraffe_moves(pieces, s, piece, side, n, false)),
    decreases n,
{
    if n > 0 {
        lemma_giraffe_within(pieces, s, piece, side, n - 1);
        let i = n - 1;
        lemma_ray_within(
            pieces,
            s,
            piece,
            side,
            spec_step(s, GIRAFFE_DIRS@[i] as int),
            crate::types::GIRAFFE_SLIDE@[i] as int,
            1,
            1,
        );
        assert(within(giraffe_path_moves(pieces, s, piece, side, i, true), giraffe_path_moves(pieces, s, piece, side, i, false)));
        lemma_within_concat(
            giraffe_moves(pieces, s, piece, side, n - 1, true),
            giraffe_path_moves(pieces, s, piece, side, i, true),
            giraffe_moves(pieces, s, piece, side, n - 1, false),
            giraffe_path_moves(pieces, s, piece, side, i, false),
        );
    }
}

proof fn lemma_piece_within(pieces: Seq<Piece>, s: int, piece: Piece, side: Color)
    ensures
        within(piece_moves(pieces, s, piece, side, true), piece_moves(pieces, s, piece, side, false)),
{
    lemma_rider_within(pieces, s, piece, side, ROOK_DIRS@, 4, 1);
    lemma_rider_within(pieces, s, piece, side, MINISTER_DIRS@, 4, 2);
    lemma_giraffe_within(pieces, s, piece, side, 8);
    lemma_leaper_within(pieces, s, piece, side, KNIGHT_DIRS@, 8);
    lemma_leaper_within(pieces, s, piece, side, MINISTER_DIRS@, 4);
    lemma_leaper_within(pieces, s, piece, side, KING_DIRS@, 8);
    lemma_leaper_within(pieces, s, piece, side, ADVISOR_DIRS@, 4);
    lemma_leaper_within(pieces, s, piece, side, ELEPHANT_DIRS@, 8);
    lemma_leaper_within(pieces, s, piece, side, CAMEL_DIRS@, 8);
    lemma_leaper_within(pieces, s, piece, side, WARENGINE_DIRS@, 4);
    assert(within(Seq::<Move>::empty(), Seq::<Move>::empty()));
}

proof fn lemma_pawn_within(pieces: Seq<Piece>, s: int, piece: Piece, side: Color)
    ensures
        within(pawn_captures(pieces, s, piece, side), pawn_moves(pieces, s, piece, side)),
{
    let push_f = pawn_push(pieces, s, piece, side, false);
    let push_t = pawn_push(pieces, s, piece, side, true);
    let c0 = pawn_capture(pieces, s, piece, side, 0);
    let c1 = pawn_capture(pieces, s, piece, side, 1);
    let all = push_f + c0 + c1;
    assert(within(push_t, push_f)) by {
        assert forall|m: Move| #[trigger] push_t.contains(m) implies push_f.contains(m) by {
            assert(push_t.len() == 1 && push_t[0] == m);
            assert(push_f[0] == m);
        }
    }
    lemma_within_parts(push_f + c0, c1);
    lemma_within_parts(push_f, c0);
    assert(within(push_f, all));
    assert(within(c0, all));
    lemma_within_join(c0, c1, all);
    lemma_within_join(c0 + c1, push_t, all);
}

proof fn lemma_square_within(b: BoardView, k: int)
    ensures
        within(square_moves(b, k, true), square_moves(b, k, false)),
{
    let s = crate::board::scan_square(k);
    let piece = b.pieces[s];
    lemma_pawn_within(b.pieces, s, piece, b.side);
    lemma_piece_within(b.pieces, s, piece, b.side);
    assert(within(Seq::<Move>::empty(), Seq::<Move>::empty()));
}

proof fn lemma_upto_within(b: BoardView, n: int)
    ensures
        within(moves_upto(b, n, true), moves_upto(b, n, false)),
    decreases n,
{
    if n > 0 {
        lemma_upto_within(b, n - 1);
        lemma_square_within(b, n - 1);
        lemma_within_concat(
            moves_upto(b, n - 1, true),
            square_moves(b, n - 1, true),
            moves_upto(b, n - 1, false),
            square_moves(b, n - 1, false),
        );
    }
}

proof fn lemma_safe_complete(b: BoardView, ms: Seq<Move>, n: int)
    requires
        0 <= n <= ms.len(),
    ensures
        forall|i: int| 0 <= i < n && king_safe_after(b, ms[i]) ==> #[trigger] safe_moves(b, ms, n).contains(ms[i]),
    decreases n,
{
    if n > 0 {
        lemma_safe_complete(b, ms, n - 1);
        let prev = safe_moves(b, ms, n - 1);
        assert forall|i: int| 0 <= i < n && king_safe_after(b, ms[i]) implies #[trigger] safe_moves(b, ms, n).contains(
            ms[i],
        ) by {
            if king_safe_after(b, ms[n - 1]) {
                let cur = prev.push(ms[n - 1]);
                if i < n - 1 {
                    assert(prev.contains(ms[i]));
                    let j = choose|j: int| 0 <= j < prev.len() && prev[j] == ms[i];
                    assert(cur[j] == ms[i]);
                } else {
                    assert(cur[prev.len() as int] == ms[i]);
                }
            } else {
                assert(i < n - 1);
                assert(prev.contains(ms[i]));
            }
        }
    }
}

/// Every legal capture (or promotion) is also a legal move: the capture
/// generator gives a part of what the full generator gives, and both keep the
/// moves that leave the mover's royal piece safe.
pub proof fn lemma_captures_among_moves(b: BoardView, m: Move)
    requires
        spec_legal_captures(b).contains(m),
    ensures
        spec_legal_moves(b).contains(m),
{
    lemma_legal_moves_safe(b, m);
    lemma_upto_within(b, 110);
    assert(pseudo_moves(b).contains(m));
    let ms = pseudo_moves(b);
    let i = choose|i: int| 0 <= i < ms.len() && ms[i] == m;
    lemma_safe_complete(b, ms, ms.len() as int);
    assert(safe_moves(b, ms, ms.len() as int).contains(ms[i]));
}


// ─── Leapers move by their leaps ────────────────────────────────

/// The leaps of each leaping piece, as steps in the 15-wide mailbox (a rank
/// is 15, a file 1): the Knight (1,2)/(2,1), the Camel (1,3)/(3,1), the
/// royal pieces one step any way, the Advisor one step orthogonally, the
/// Minister one step diagonally, the Elephant one or two steps diagonally,
/// the War Engine two steps orthogonally.
pub open spec fn leaps(p: Piece, d: int) -> bool {
    match p {
        Piece::WKnight | Piece::BKnight => d == 31 || d == 29 || d == 17 || d == 13 || d == -13 || d == -17
            || d == -29 || d == -31,
        Piece::WCamel | Piece::BCamel => d == 46 || d == 44 || d == 18 || d == 12 || d == -12 || d == -18
            || d == -44 || d == -46,
        Piece::WKing | Piece::BKing | Piece::WPrince | Piece::BPrince | Piece::WAdKing | Piece::BAdKing =>
            d == 16 || d == 15 || d == 14 || d == 1 || d == -1 || d == -14 || d == -15 || d == -16,
        Piece::WAdvisor | Piece::BAdvisor => d == 15 || d == 1 || d == -1 || d == -15,
        Piece::WMinister | Piece::BMinister => d == 16 || d == 14 || d == -14 || d == -16,
        Piece::WElephant | Piece::BElephant => d == 32 || d == 28 || d == 16 || d == 14 || d == -14
            || d == -16 || d == -28 || d == -32,
        Piece::WWarengine | Piece::BWarengine => d == 30 || d == 2 || d == -2 || d == -30,
        _ => false,
    }
}

/// The pieces that move only by leaps.
pub open spec fn is_leaper(p: Piece) -> bool {
    exists|d: int| leaps(p, d)
}

/// Every move of the list starts on `s`.
pub open spec fn from_all(s: int, ms: Seq<Move>) -> bool {
    forall|i: int| 0 <= i < ms.len() ==> spec_mv_from(#[trigger] ms[i]) == s
}

/// Every move of the list goes from `s` by one of the first `n` steps of `dirs`.
pub open spec fn leaps_all(s: int, ms: Seq<Move>, dirs: Seq<i32>, n: int) -> bool {
    forall|i: int| 0 <= i < ms.len() ==> spec_mv_from(#[trigger] ms[i]) == s && exists|j: int| 0 <= j < n
        && spec_mv_to(ms[i]) == s + dirs[j]
}

proof fn lemma_on_board_small(s: int)
    requires
        on_board(s),
    ensures
        0 <= s < 256,
{
}

proof fn lemma_one_from(s: int, t: int, captured: Piece)
    requires
        on_board(s),
        on_board(t),
    ensures
        spec_mv_from(spec_make_move(s as usize, t as usize, captured, false, Piece::Empty)) == s,
        spec_mv_to(spec_make_move(s as usize, t as usize, captured, false, Piece::Empty)) == t,
        from_all(s, seq![spec_make_move(s as usize, t as usize, captured, false, Piece::Empty)]),
{
    lemma_on_board_small(s);
    lemma_on_board_small(t);
    lemma_move_fields(s as usize, t as usize, captured, false, Piece::Empty);
}

proof fn lemma_from_concat(s: int, a: Seq<Move>, b: Seq<Move>)
    requires
        from_all(s, a),
        from_all(s, b),
    ensures
        from_all(s, a + b),
{
    assert forall|i: int| 0 <= i < (a + b).len() implies spec_mv_from(#[trigger] (a + b)[i]) == s by {
        if i < a.len() {
            assert((a + b)[i] == a[i]);
        } else {
            assert((a + b)[i] == b[i - a.len()]);
        }
    }
}

proof fn lemma_leaper_leaps(pieces: Seq<Piece>, s: int, piece: Piece, side: Color, dirs: Seq<i32>, n: int, co: bool)
    requires
        on_board(s),
        n <= dirs.len(),
    ensures
        leaps_all(s, leaper_moves(pieces, s, piece, side, dirs, n, co), dirs, n),
        from_all(s, leaper_moves(pieces, s, piece, side, dirs, n, co)),
    decreases n,
{
    if n > 0 {
        lemma_leaper_leaps(pieces, s, piece, side, dirs, n - 1, co);
        let a = leaper_moves(pieces, s, piece, side, dirs, n - 1, co);
        let d = dirs[n - 1] as int;
        let one = leaper_one(pieces, s, piece, side, d, co);
        let t = spec_step(s, d);
        if on_board(t) {
            assert(t == s + d);
            lemma_one_from(s, t, Piece::Empty);
            lemma_one_from(s, t, pieces[t]);
        }
        let all = a + one;
        assert forall|i: int| 0 <= i < all.len() implies spec_mv_from(#[trigger] all[i]) == s && exists|j: int|
            0 <= j < n && spec_mv_to(all[i]) == s + dirs[j] by {
            if i < a.len() {
                assert(all[i] == a[i]);
                let j = choose|j: int| 0 <= j < n - 1 && spec_mv_to(a[i]) == s + dirs[j];
                assert(0 <= j < n && spec_mv_to(all[i]) == s + dirs[j]);
            } else {
                assert(all[i] == one[i - a.len()]);
                assert(spec_mv_to(all[i]) == s + dirs[n - 1]);
            }
        }
    }
}

proof fn lemma_ray_from(pieces: Seq<Piece>, s: int, piece: Piece, side: Color, t: int, d: int, dist: int, min_dist: int, co: bool)
    requires
        on_board(s),
    ensures
        from_all(s, ray_moves(pieces, s, piece, side, t, d, dist, min_dist, co)),
    decreases ray_measure(t, d),
{
    if d == 0 || !on_board(t) {
    } else {
        let next = spec_step(t, d);
        assert(ray_measure(next, d) < ray_measure(t, d)) by {
            if on_board(next) {
                assert(next == t + d);
            }
        }
        lemma_ray_from(pieces, s, piece, side, next, d, dist + 1, min_dist, co);
        lemma_one_from(s, t, Piece::Empty);
        lemma_one_from(s, t, pieces[t]);
        let rest = ray_moves(pieces, s, piece, side, next, d, (dist + 1) as int, min_dist, co);
        if can_enter(piece, t, side) && pieces[t] == Piece::Empty {
            let first: Seq<Move> = if dist >= min_dist && !co {
                seq![spec_make_move(s as usize, t as usize, Piece::Empty, false, Piece::Empty)]
            } else {
                seq![]
            };
            lemma_from_concat(s, first, rest);
        }
    }
}

proof fn lemma_rider_from(pieces: Seq<Piece>, s: int, piece: Piece, side: Color, dirs: Seq<i32>, n: int, min_dist: int, co: bool)
    requires
        on_board(s),
    ensures
        from_all(s, rider_moves(pieces, s, piece, side, dirs, n, min_dist, co)),
    decreases n,
{
    if n > 0 {
        lemma_rider_from(pieces, s, piece, side, dirs, n - 1, min_dist, co);
        let d = dirs[n - 1] as int;
        lemma_ray_from(pieces, s, piece, side, spec_step(s, d), d, 1, min_dist, co);
        lemma_from_concat(
            s,
            rider_moves(pieces, s, piece, side, dirs, n - 1, min_dist, co),
            ray_moves(pieces, s, piece, side, spec_step(s, d), d, 1, min_dist, co),
        );
    }
}

proof fn lemma_giraffe_from(pieces: Seq<Piece>, s: int, piece: Piece, side: Color, n: int, co: bool)
    requires
        on_board(s),
    ensures
        from_all(s, giraffe_moves(pieces, s, piece, side, n, co)),
    decreases n,
{
    if n > 0 {
        lemma_giraffe_from(pieces, s, piece, side, n - 1, co);
        let i = n - 1;
        lemma_ray_from(
            pieces,
            s,
            piece,
            side,
            spec_step(s, GIRAFFE_DIRS@[i] as int),
            crate::types::GIRAFFE_SLIDE@[i] as int,
            1,
            1,
            co,
        );
        assert(from_all(s, giraffe_path_moves(pieces, s, piece, side, i, co)));
        lemma_from_concat(
            s,
            giraffe_moves(pieces, s, piece, side, n - 1, co),
            giraffe_path_moves(pieces, s, piece, side, i, co),
        );
    }
}

#[verifier::spinoff_prover]
#[verifier::rlimit(40)]
proof fn lemma_pawn_from(pieces: Seq<Piece>, s: int, piece: Piece, side: Color)
    requires
        on_board(s),
    ensures
        from_all(s, pawn_moves(pieces, s, piece, side)),
        from_all(s, pawn_captures(pieces, s, piece, side)),
{
    let t0 = spec_step(s, crate::movegen::pawn_forward(side));
    let t1 = spec_step(s, crate::movegen::pawn_cap(side, 0));
    let t2 = spec_step(s, crate::movegen::pawn_cap(side, 1));
    lemma_on_board_small(s);
    if on_board(t0) {
        lemma_on_board_small(t0);
        lemma_move_fields(s as usize, t0 as usize, pieces[t0], true, piece.promotion());
        lemma_move_fields(s as usize, t0 as usize, pieces[t0], false, Piece::Empty);
    }
    if on_board(t1) {
        lemma_on_board_small(t1);
        lemma_move_fields(s as usize, t1 as usize, pieces[t1], true, piece.promotion());
        lemma_move_fields(s as usize, t1 as usize, pieces[t1], false, Piece::Empty);
    }
    if on_board(t2) {
        lemma_on_board_small(t2);
        lemma_move_fields(s as usize, t2 as usize, pieces[t2], true, piece.promotion());
        lemma_move_fields(s as usize, t2 as usize, pieces[t2], false, Piece::Empty);
    }
    let a = pawn_push(pieces, s, piece, side, false);
    let a2 = pawn_push(pieces, s, piece, side, true);
    let b = pawn_capture(pieces, s, piece, side, 0);
    let c = pawn_capture(pieces, s, piece, side, 1);
    assert(from_all(s, a));
    assert(from_all(s, a2));
    assert(from_all(s, b));
    assert(from_all(s, c));
    lemma_from_concat(s, a, b);
    lemma_from_concat(s, a + b, c);
    lemma_from_concat(s, b, c);
    lemma_from_concat(s, b + c, a2);
}

proof fn lemma_square_from(b: BoardView, k: int, co: bool)
    requires
        0 <= k < 110,
    ensures
        from_all(scan_square(k), square_moves(b, k, co)),
{
    lemma_scan_square(k);
    let s = scan_square(k);
    let piece = b.pieces[s];
    lemma_pawn_from(b.pieces, s, piece, b.side);
    lemma_rider_from(b.pieces, s, piece, b.side, ROOK_DIRS@, 4, 1, co);
    lemma_rider_from(b.pieces, s, piece, b.side, MINISTER_DIRS@, 4, 2, co);
    lemma_giraffe_from(b.pieces, s, piece, b.side, 8, co);
    lemma_leaper_leaps(b.pieces, s, piece, b.side, KNIGHT_DIRS@, 8, co);
    lemma_leaper_leaps(b.pieces, s, piece, b.side, MINISTER_DIRS@, 4, co);
    lemma_leaper_leaps(b.pieces, s, piece, b.side, KING_DIRS@, 8, co);
    lemma_leaper_leaps(b.pieces, s, piece, b.side, ADVISOR_DIRS@, 4, co);
    lemma_leaper_leaps(b.pieces, s, piece, b.side, ELEPHANT_DIRS@, 8, co);
    lemma_leaper_leaps(b.pieces, s, piece, b.side, CAMEL_DIRS@, 8, co);
    lemma_leaper_leaps(b.pieces, s, piece, b.side, WARENGINE_DIRS@, 4, co);
}

proof fn lemma_upto_square(b: BoardView, n: int, m: Move)
    requires
        0 <= n <= 110,
        moves_upto(b, n, false).contains(m),
    ensures
        exists|k: int| 0 <= k < n && #[trigger] square_moves(b, k, false).contains(m),
    decreases n,
{
    if n > 0 {
        let a = moves_upto(b, n - 1, false);
        let c = square_moves(b, n - 1, false);
        let i = choose|i: int| 0 <= i < (a + c).len() && (a + c)[i] == m;
        if i < a.len() {
            assert(a[i] == m);
            assert(a.contains(m));
            lemma_upto_square(b, n - 1, m);
        } else {
            assert(c[i - a.len()] == m);
            assert(c.contains(m));
        }
    }
}

proof fn lemma_square_in_upto(b: BoardView, k: int, n: int)
    requires
        0 <= k < n,
    ensures
        within(square_moves(b, k, false), moves_upto(b, n, false)),
    decreases n,
{
    lemma_within_parts(moves_upto(b, n - 1, false), square_moves(b, n - 1, false));
    if k < n - 1 {
        lemma_square_in_upto(b, k, n - 1);
        assert forall|m: Move| #[trigger] square_moves(b, k, false).contains(m) implies moves_upto(b, n, false).contains(m) by {
            assert(moves_upto(b, n - 1, false).contains(m));
        }
    }
}

proof fn lemma_one_in_leaper(pieces: Seq<Piece>, s: int, piece: Piece, side: Color, dirs: Seq<i32>, n: int, j: int)
    requires
        0 <= j < n <= dirs.len(),
    ensures
        within(leaper_one(pieces, s, piece, side, dirs[j] as int, false), leaper_moves(pieces, s, piece, side, dirs, n, false)),
    decreases n,
{
    let a = leaper_moves(pieces, s, piece, side, dirs, n - 1, false);
    let one = leaper_one(pieces, s, piece, side, dirs[n - 1] as int, false);
    lemma_within_parts(a, one);
    if j < n - 1 {
        lemma_one_in_leaper(pieces, s, piece, side, dirs, n - 1, j);
        assert forall|m: Move| #[trigger] leaper_one(pieces, s, piece, side, dirs[j] as int, false).contains(m)
            implies leaper_moves(pieces, s, piece, side, dirs, n, false).contains(m) by {
            assert(a.contains(m));
        }
    }
}

/// The generator's step table of a leaping piece.
spec fn leaper_table(p: Piece) -> (Seq<i32>, int) {
    match p {
        Piece::WKnight | Piece::BKnight => (KNIGHT_DIRS@, 8),
        Piece::WCamel | Piece::BCamel => (CAMEL_DIRS@, 8),
        Piece::WKing | Piece::BKing | Piece::WPrince | Piece::BPrince | Piece::WAdKing | Piece::BAdKing => (KING_DIRS@, 8),
        Piece::WAdvisor | Piece::BAdvisor => (ADVISOR_DIRS@, 4),
        Piece::WMinister | Piece::BMinister => (MINISTER_DIRS@, 4),
        Piece::WElephant | Piece::BElephant => (ELEPHANT_DIRS@, 8),
        _ => (WARENGINE_DIRS@, 4),
    }
}

proof fn lemma_leaper_table(p: Piece)
    requires
        is_leaper(p),
    ensures
        !p.pawn(),
        p != Piece::Empty,
        piece_moves_leaper(p),
        leaper_table(p).1 <= leaper_table(p).0.len(),
        forall|j: int| 0 <= j < leaper_table(p).1 ==> leaps(p, #[trigger] leaper_table(p).0[j] as int),
        forall|d: int| leaps(p, d) ==> exists|j: int| 0 <= j < leaper_table(p).1 && #[trigger] leaper_table(p).0[j] == d,
{
    let d0 = choose|d: int| leaps(p, d);
    assert(leaps(p, d0));
    let (dirs, n) = leaper_table(p);
    assert forall|d: int| leaps(p, d) implies exists|j: int| 0 <= j < n && #[trigger] dirs[j] == d by {
        if dirs[0] == d {
            assert(0 < n && dirs[0] == d);
        } else if dirs[1] == d {
            assert(1 < n && dirs[1] == d);
        } else if dirs[2] == d {
            assert(2 < n && dirs[2] == d);
        } else if dirs[3] == d {
            assert(3 < n && dirs[3] == d);
        } else if dirs[4] == d {
            assert(4 < n && dirs[4] == d);
        } else if dirs[5] == d {
            assert(5 < n && dirs[5] == d);
        } else if dirs[6] == d {
            assert(6 < n && dirs[6] == d);
        } else {
            assert(7 < n && dirs[7] == d);
        }
    }
}

/// Moves of the piece from `s` are its leaps through the generator's table.
spec fn piece_moves_leaper(p: Piece) -> bool {
    forall|pieces: Seq<Piece>, s: int, side: Color, co: bool| #[trigger] piece_moves(pieces, s, p, side, co)
        == leaper_moves(pieces, s, p, side, leaper_table(p).0, leaper_table(p).1, co)
}

/// Every legal move of a leaping piece (Knight, Camel, royal piece, Advisor,
/// Minister, Elephant, War Engine) is one of its leaps: it goes from the
/// piece's square s to s + d with `leaps(piece, d)`.
pub proof fn lemma_leaper_moves_leap(b: BoardView, m: Move)
    requires
        spec_legal_moves(b).contains(m),
        is_leaper(b.pieces[spec_mv_from(m)]),
    ensures
        leaps(b.pieces[spec_mv_from(m)], spec_mv_to(m) - spec_mv_from(m)),
{
    lemma_legal_moves_safe(b, m);
    lemma_upto_square(b, 110, m);
    let k = choose|k: int| 0 <= k < 110 && #[trigger] square_moves(b, k, false).contains(m);
    lemma_square_from(b, k, false);
    let ms = square_moves(b, k, false);
    let i = choose|i: int| 0 <= i < ms.len() && ms[i] == m;
    assert(spec_mv_from(ms[i]) == scan_square(k));
    let s = scan_square(k);
    let p = b.pieces[s];
    lemma_scan_square(k);
    lemma_leaper_table(p);
    let (dirs, n) = leaper_table(p);
    lemma_leaper_leaps(b.pieces, s, p, b.side, dirs, n, false);
    assert(ms == leaper_moves(b.pieces, s, p, b.side, dirs, n, false));
    let j = choose|j: int| 0 <= j < n && spec_mv_to(ms[i]) == s + dirs[j];
    assert(leaps(p, dirs[j] as int));
}

/// Every leap of a leaping piece of the side to move, from one of the 110
/// ordinary squares to a playing square it may enter that is empty or holds an
/// enemy piece, is generated; it is a legal move unless it leaves the mover's
/// royal piece attacked.
pub proof fn lemma_leaper_moves_complete(b: BoardView, s: int, d: int)
    requires
        main_square(s),
        b.pieces[s].side() == Some(b.side),
        leaps(b.pieces[s], d),
        on_board(s + d),
        can_enter(b.pieces[s], s + d, b.side),
        b.pieces[s + d] == Piece::Empty || b.pieces[s + d].side() != Some(b.side),
    ensures
        pseudo_moves(b).contains(spec_make_move(s as usize, (s + d) as usize, b.pieces[s + d], false, Piece::Empty)),
        king_safe_after(b, spec_make_move(s as usize, (s + d) as usize, b.pieces[s + d], false, Piece::Empty))
            ==> spec_legal_moves(b).contains(spec_make_move(s as usize, (s + d) as usize, b.pieces[s + d], false, Piece::Empty)),
{
    let p = b.pieces[s];
    let t = s + d;
    let m = spec_make_move(s as usize, t as usize, b.pieces[t], false, Piece::Empty);
    let file = s % 15 - 1;
    let rank = s / 15 - 3;
    crate::board::lemma_sq_coords(file, rank);
    lemma_scan_index(file, rank);
    let k = (rank - 1) * 11 + file - 1;
    assert(scan_square(k) == s);
    assert(is_leaper(p));
    lemma_leaper_table(p);
    let (dirs, n) = leaper_table(p);
    let j = choose|j: int| 0 <= j < n && #[trigger] dirs[j] == d;
    assert(spec_step(s, d) == t);
    let one = leaper_one(b.pieces, s, p, b.side, d, false);
    assert(one == seq![m]);
    assert(one[0] == m);
    assert(one.contains(m));
    lemma_one_in_leaper(b.pieces, s, p, b.side, dirs, n, j);
    assert(square_moves(b, k, false) == leaper_moves(b.pieces, s, p, b.side, dirs, n, false));
    assert(square_moves(b, k, false).contains(m));
    lemma_square_in_upto(b, k, 110);
    assert(pseudo_moves(b).contains(m));
    let ms = pseudo_moves(b);
    let i = choose|i: int| 0 <= i < ms.len() && ms[i] == m;
    lemma_safe_complete(b, ms, ms.len() as int);
    if king_safe_after(b, m) {
        assert(safe_moves(b, ms, ms.len() as int).contains(ms[i]));
    }
}


/// A leaping piece attacks every square one of its leaps reaches: a piece of
/// side `c` on `t` with `leaps(piece, s - t)` makes `s` attacked by `c`.
pub proof fn lemma_leaper_attacks(b: BoardView, s: int, t: int, c: Color)
    requires
        on_board(t),
        b.pieces[t].side() == Some(c),
        leaps(b.pieces[t], s - t),
    ensures
        crate::attack::attacked(b, s, c),
{
    let p = b.pieces[t];
    assert(leaps(p, t - s));
    assert(is_leaper(p));
    lemma_leaper_table(p);
    let (dirs, n) = leaper_table(p);
    let j = choose|j: int| 0 <= j < n && #[trigger] dirs[j] == t - s;
    assert(spec_step(s, dirs[j] as int) == t);
    assert(on_board(spec_step(s, dirs[j] as int)));
}


// ─── Pawns step forward and capture diagonally forward ──────────

/// A pawn move from `s` to `t`: a White pawn steps one rank up (15) onto an
/// empty square or captures one rank up and one file aside (14 or 16); a
/// Black pawn does the same downwards. The move records the piece taken, and
/// it promotes, to the pawn's promoted piece, exactly when it reaches the
/// last rank (rank 10 for White, rank 1 for Black).
pub open spec fn pawn_step(pieces: Seq<Piece>, m: Move) -> bool {
    let s = spec_mv_from(m);
    let t = spec_mv_to(m);
    let pawn = pieces[s];
    let up = if pawn.white() { 1int } else { -1int };
    let last = if pawn.white() { 10int } else { 1int };
    &&& (t - s == 15 * up && pieces[t] == Piece::Empty) || ((t - s == 14 * up || t - s == 16 * up)
        && pieces[t] != Piece::Empty && pieces[t].side() != pawn.side())
    &&& spec_mv_captured(m) == pieces[t]
    &&& spec_mv_is_promotion(m) == (t / 15 - 3 == last)
    &&& spec_mv_is_promotion(m) ==> spec_mv_promoted_to(m) == pawn.promotion()
}

proof fn lemma_pawn_to(pieces: Seq<Piece>, s: int, t: int, piece: Piece, side: Color)
    requires
        on_board(s),
        on_board(t),
        piece == pieces[s],
        piece.side() == Some(side),
        (t - s == crate::movegen::pawn_forward(side) && pieces[t] == Piece::Empty) || ((t - s
            == crate::movegen::pawn_cap(side, 0) || t - s == crate::movegen::pawn_cap(side, 1))
            && crate::movegen::enemy(pieces[t], side)),
    ensures
        pawn_step(pieces, crate::movegen::pawn_move_to(pieces, s, t, piece, crate::movegen::promo_rank(side))),
{
    lemma_on_board_small(s);
    lemma_on_board_small(t);
    lemma_move_fields(s as usize, t as usize, pieces[t], true, piece.promotion());
    lemma_move_fields(s as usize, t as usize, pieces[t], false, Piece::Empty);
    assert(crate::board::spec_rank_brd(t) == t / 15 - 3);
}

proof fn lemma_pawn_steps(pieces: Seq<Piece>, s: int, piece: Piece, side: Color)
    requires
        on_board(s),
        piece == pieces[s],
        piece.side() == Some(side),
    ensures
        forall|i: int| 0 <= i < pawn_moves(pieces, s, piece, side).len() ==> pawn_step(pieces, #[trigger] pawn_moves(pieces, s, piece, side)[i]),
{
    let t0 = spec_step(s, crate::movegen::pawn_forward(side));
    let t1 = spec_step(s, crate::movegen::pawn_cap(side, 0));
    let t2 = spec_step(s, crate::movegen::pawn_cap(side, 1));
    let pr = crate::movegen::promo_rank(side);
    if on_board(t0) && pieces[t0] == Piece::Empty {
        assert(t0 == s + crate::movegen::pawn_forward(side));
        lemma_pawn_to(pieces, s, t0, piece, side);
    }
    if on_board(t1) && crate::movegen::enemy(pieces[t1], side) {
        assert(t1 == s + crate::movegen::pawn_cap(side, 0));
        lemma_pawn_to(pieces, s, t1, piece, side);
    }
    if on_board(t2) && crate::movegen::enemy(pieces[t2], side) {
        assert(t2 == s + crate::movegen::pawn_cap(side, 1));
        lemma_pawn_to(pieces, s, t2, piece, side);
    }
    let a = pawn_push(pieces, s, piece, side, false);
    let b = pawn_capture(pieces, s, piece, side, 0);
    let c = pawn_capture(pieces, s, piece, side, 1);
    let all = a + b + c;
    assert forall|i: int| 0 <= i < all.len() implies pawn_step(pieces, #[trigger] all[i]) by {
        if i < a.len() {
            assert(all[i] == a[i]);
        } else if i < a.len() + b.len() {
            assert(all[i] == b[i - a.len()]);
        } else {
            assert(all[i] == c[i - a.len() - b.len()]);
        }
    }
}

/// Every legal pawn move is a pawn step (see `pawn_step`): straight ahead onto
/// an empty square, or diagonally ahead taking an enemy piece, promoting
/// exactly on the last rank.
pub proof fn lemma_pawn_moves_step(b: BoardView, m: Move)
    requires
        spec_legal_moves(b).contains(m),
        b.pieces[spec_mv_from(m)].pawn(),
    ensures
        pawn_step(b.pieces, m),
{
    lemma_legal_moves_safe(b, m);
    lemma_upto_square(b, 110, m);
    let k = choose|k: int| 0 <= k < 110 && #[trigger] square_moves(b, k, false).contains(m);
    lemma_square_from(b, k, false);
    let ms = square_moves(b, k, false);
    let i = choose|i: int| 0 <= i < ms.len() && ms[i] == m;
    let s = scan_square(k);
    assert(spec_mv_from(ms[i]) == s);
    lemma_scan_square(k);
    let p = b.pieces[s];
    assert(p != Piece::Empty && p.side() == Some(b.side));
    lemma_pawn_steps(b.pieces, s, p, b.side);
    assert(ms == pawn_moves(b.pieces, s, p, b.side));
    assert(pawn_step(b.pieces, ms[i]));
}


// ─── Riders slide along open lines ──────────────────────────────

/// The square `n` steps of `d` away from `s`.
pub open spec fn ray_square(s: int, d: int, n: nat) -> int
    decreases n,
{
    if n == 0 {
        s
    } else {
        ray_square(s, d, (n - 1) as nat) + d
    }
}

/// A square a sliding piece passes over: empty, or one it may not enter.
pub open spec fn passable(pieces: Seq<Piece>, piece: Piece, side: Color, x: int) -> bool {
    pieces[x] == Piece::Empty || !can_enter(piece, x, side)
}

/// The move goes from `s` some `n >= min_dist` steps of `d` away, over squares it may pass.
pub open spec fn slides_to(pieces: Seq<Piece>, piece: Piece, side: Color, s: int, m: Move, d: int, min_dist: int) -> bool {
    exists|n: nat| #![trigger ray_square(s, d, n)] n >= 1 && n >= min_dist && spec_mv_to(m) == ray_square(s, d, n)
        && forall|j: nat| 1 <= j < n ==> passable(pieces, piece, side, #[trigger] ray_square(s, d, j))
}

proof fn lemma_ray_slides(pieces: Seq<Piece>, s: int, piece: Piece, side: Color, t: int, d: int, dist: nat, min_dist: int, co: bool)
    requires
        on_board(s),
        d != 0,
        dist >= 1,
        t == ray_square(s, d, dist),
        forall|j: nat| 1 <= j < dist ==> passable(pieces, piece, side, #[trigger] ray_square(s, d, j)),
    ensures
        forall|i: int| 0 <= i < ray_moves(pieces, s, piece, side, t, d, dist as int, min_dist, co).len()
            ==> #[trigger] slides_to(pieces, piece, side, s, ray_moves(pieces, s, piece, side, t, d, dist as int, min_dist, co)[i], d, min_dist),
    decreases ray_measure(t, d),
{
    let ms = ray_moves(pieces, s, piece, side, t, d, dist as int, min_dist, co);
    if !on_board(t) {
    } else {
        let next = spec_step(t, d);
        lemma_on_board_small(s);
        lemma_on_board_small(t);
        lemma_move_fields(s as usize, t as usize, Piece::Empty, false, Piece::Empty);
        lemma_move_fields(s as usize, t as usize, pieces[t], false, Piece::Empty);
        let here_ok = forall|j: nat| 1 <= j < dist + 1 ==> passable(pieces, piece, side, #[trigger] ray_square(s, d, j));
        let rest = ray_moves(pieces, s, piece, side, next, d, (dist + 1) as int, min_dist, co);
        if passable(pieces, piece, side, t) {
            assert(here_ok) by {
                assert forall|j: nat| 1 <= j < dist + 1 implies passable(pieces, piece, side, #[trigger] ray_square(s, d, j)) by {
                    if j == dist {
                        assert(ray_square(s, d, j) == t);
                    }
                }
            }
            if on_board(next) {
                assert(next == t + d);
                assert(ray_square(s, d, (dist + 1) as nat) == next);
                assert(ray_measure(next, d) < ray_measure(t, d));
                lemma_ray_slides(pieces, s, piece, side, next, d, (dist + 1) as nat, min_dist, co);
            } else {
                assert(rest.len() == 0);
            }
        }
        let mv = spec_make_move(s as usize, t as usize, pieces[t], false, Piece::Empty);
        let mv0 = spec_make_move(s as usize, t as usize, Piece::Empty, false, Piece::Empty);
        assert(dist >= min_dist ==> slides_to(pieces, piece, side, s, mv, d, min_dist)) by {
            if dist >= min_dist {
                assert(spec_mv_to(mv) == ray_square(s, d, dist));
            }
        }
        assert(dist >= min_dist ==> slides_to(pieces, piece, side, s, mv0, d, min_dist)) by {
            if dist >= min_dist {
                assert(spec_mv_to(mv0) == ray_square(s, d, dist));
            }
        }
        assert forall|i: int| 0 <= i < ms.len() implies #[trigger] slides_to(pieces, piece, side, s, ms[i], d, min_dist) by {
            if !can_enter(piece, t, side) {
                assert(ms == rest);
            } else if pieces[t] == Piece::Empty {
                let first: Seq<Move> = if dist >= min_dist && !co { seq![mv0] } else { seq![] };
                assert(ms == first + rest);
                if i < first.len() {
                    assert(ms[i] == mv0);
                } else {
                    assert(ms[i] == rest[i - first.len()]);
                }
            } else {
                assert(ms[i] == mv);
            }
        }
    }
}

/// The move slides from `s` along one of the first `n` directions of `dirs`.
pub open spec fn slides_along(pieces: Seq<Piece>, piece: Piece, side: Color, s: int, m: Move, dirs: Seq<i32>, n: int, min_dist: int) -> bool {
    exists|k: int| 0 <= k < n && #[trigger] slides_to(pieces, piece, side, s, m, dirs[k] as int, min_dist)
}

proof fn lemma_rider_slides(pieces: Seq<Piece>, s: int, piece: Piece, side: Color, dirs: Seq<i32>, n: int, min_dist: int, co: bool)
    requires
        on_board(s),
        n <= dirs.len(),
        forall|k: int| 0 <= k < dirs.len() ==> #[trigger] dirs[k] != 0,
    ensures
        forall|i: int| 0 <= i < rider_moves(pieces, s, piece, side, dirs, n, min_dist, co).len() ==> #[trigger] slides_along(
            pieces, piece, side, s, rider_moves(pieces, s, piece, side, dirs, n, min_dist, co)[i], dirs, n, min_dist),
    decreases n,
{
    if n > 0 {
        lemma_rider_slides(pieces, s, piece, side, dirs, n - 1, min_dist, co);
        let d = dirs[n - 1] as int;
        let t = spec_step(s, d);
        let a = rider_moves(pieces, s, piece, side, dirs, n - 1, min_dist, co);
        let r = ray_moves(pieces, s, piece, side, t, d, 1, min_dist, co);
        if on_board(t) {
            assert(t == s + d);
            assert(ray_square(s, d, 0) == s);
            assert(ray_square(s, d, 1) == t);
            lemma_ray_slides(pieces, s, piece, side, t, d, 1, min_dist, co);
        } else {
            assert(r.len() == 0);
        }
        let all = a + r;
        assert(rider_moves(pieces, s, piece, side, dirs, n, min_dist, co) == all);
        assert forall|i: int| 0 <= i < all.len() implies #[trigger] slides_along(pieces, piece, side, s, all[i], dirs, n, min_dist) by {
            if i < a.len() {
                assert(all[i] == a[i]);
                assert(slides_along(pieces, piece, side, s, a[i], dirs, n - 1, min_dist));
                let k = choose|k: int| 0 <= k < n - 1 && #[trigger] slides_to(pieces, piece, side, s, a[i], dirs[k] as int, min_dist);
                assert(slides_to(pieces, piece, side, s, all[i], dirs[k] as int, min_dist));
            } else {
                assert(all[i] == r[i - a.len()]);
                assert(slides_to(pieces, piece, side, s, all[i], dirs[n - 1] as int, min_dist));
            }
        }
    }
}

/// Every legal Rook move slides along a rank or file (steps of 1 or 15) and
/// every legal Catapult move along a diagonal (steps of 14 or 16) by two
/// squares or more, over empty squares (or citadels it may not enter) only.
pub proof fn lemma_rider_moves_slide(b: BoardView, m: Move)
    requires
        spec_legal_moves(b).contains(m),
    ensures
        ({
            let s = spec_mv_from(m);
            let p = b.pieces[s];
            &&& (p == Piece::WRook || p == Piece::BRook) ==> slides_to(b.pieces, p, b.side, s, m, 1, 1)
                || slides_to(b.pieces, p, b.side, s, m, -1, 1) || slides_to(b.pieces, p, b.side, s, m, 15, 1)
                || slides_to(b.pieces, p, b.side, s, m, -15, 1)
            &&& (p == Piece::WCatapult || p == Piece::BCatapult) ==> slides_to(b.pieces, p, b.side, s, m, 14, 2)
                || slides_to(b.pieces, p, b.side, s, m, -14, 2) || slides_to(b.pieces, p, b.side, s, m, 16, 2)
                || slides_to(b.pieces, p, b.side, s, m, -16, 2)
        }),
{
    lemma_legal_moves_safe(b, m);
    lemma_upto_square(b, 110, m);
    let k = choose|k: int| 0 <= k < 110 && #[trigger] square_moves(b, k, false).contains(m);
    lemma_square_from(b, k, false);
    let ms = square_moves(b, k, false);
    let i = choose|i: int| 0 <= i < ms.len() && ms[i] == m;
    let s = scan_square(k);
    assert(spec_mv_from(ms[i]) == s);
    lemma_scan_square(k);
    let p = b.pieces[s];
    if p == Piece::WRook || p == Piece::BRook {
        lemma_rider_slides(b.pieces, s, p, b.side, ROOK_DIRS@, 4, 1, false);
        assert(ms == rider_moves(b.pieces, s, p, b.side, ROOK_DIRS@, 4, 1, false));
        assert(slides_along(b.pieces, p, b.side, s, ms[i], ROOK_DIRS@, 4, 1));
        let j = choose|j: int| 0 <= j < 4 && #[trigger] slides_to(b.pieces, p, b.side, s, ms[i], ROOK_DIRS@[j] as int, 1);
    }
    if p == Piece::WCatapult || p == Piece::BCatapult {
        lemma_rider_slides(b.pieces, s, p, b.side, MINISTER_DIRS@, 4, 2, false);
        assert(ms == rider_moves(b.pieces, s, p, b.side, MINISTER_DIRS@, 4, 2, false));
        assert(slides_along(b.pieces, p, b.side, s, ms[i], MINISTER_DIRS@, 4, 2));
        let j = choose|j: int| 0 <= j < 4 && #[trigger] slides_to(b.pieces, p, b.side, s, ms[i], MINISTER_DIRS@[j] as int, 2);
    }
}

} // verus!
