use vstd::prelude::*;
use crate::types::{spec_sq, Color, Piece};
use crate::board::{Board, reads_fen};
use crate::board::{
    board_fen, count_digits, digit_value, empty_pieces, fen_black, fen_board_field, fen_char,
    fen_piece, fen_place, fen_position, fen_readable, is_digit, is_ws, lemma_sq_coords, main_square,
    ranks_fen, row_fen, skip_ws, standard_keys, token_end, pieces_hash, full_hash, square_key,
    lemma_hash_update, lemma_xor_zero, BoardView,
};

verus! {

// ─── What the parser does with the text of a row ────────────────

/// The pieces and hash after the parser has placed the pieces of `p` found on
/// `rank` from `file` to 11.
pub open spec fn place_row(acc: Seq<Piece>, h: u64, keys: Seq<u64>, p: Seq<Piece>, rank: int, file: int) -> (Seq<Piece>, u64)
    decreases 12 - file,
{
    if file > 11 {
        (acc, h)
    } else {
        let s = spec_sq(file, rank);
        let q = p[s];
        if q == Piece::Empty {
            place_row(acc, h, keys, p, rank, file + 1)
        } else {
            place_row(acc.update(s, q), h ^ keys[s * 47 + q.code()], keys, p, rank, file + 1)
        }
    }
}

/// The same for ranks `rank` down to 1.
pub open spec fn place_ranks(acc: Seq<Piece>, h: u64, keys: Seq<u64>, p: Seq<Piece>, rank: int) -> (Seq<Piece>, u64)
    decreases rank,
{
    if rank < 1 {
        (acc, h)
    } else {
        let r = place_row(acc, h, keys, p, rank, 1);
        place_ranks(r.0, r.1, keys, p, rank - 1)
    }
}

proof fn lemma_count_digits(n: int)
    requires
        1 <= n <= 11,
    ensures
        n <= 9 ==> count_digits(n).len() == 1 && is_digit(count_digits(n)[0]) && digit_value(
            count_digits(n)[0],
        ) == n,
        n >= 10 ==> count_digits(n).len() == 2 && is_digit(count_digits(n)[0]) && is_digit(
            count_digits(n)[1],
        ) && digit_value(count_digits(n)[0]) * 10 + digit_value(count_digits(n)[1]) == n,
        forall|k: int| 0 <= k < count_digits(n).len() ==> !is_ws(#[trigger] count_digits(n)[k])
            && count_digits(n)[k] != '/',
{
    if n >= 10 {
        assert(n / 10 == 1);
        assert(n % 10 == n - 10);
    }
}

proof fn lemma_fen_char(q: Piece)
    requires
        q != Piece::Empty,
    ensures
        fen_piece(fen_char(q)) == q,
        !is_digit(fen_char(q)),
        !is_ws(fen_char(q)),
        fen_char(q) != '/',
{
}

/// Characters of the written rows: never whitespace.
proof fn lemma_row_chars(p: Seq<Piece>, rank: int, file: int, empty: int)
    requires
        1 <= file <= 12,
        0 <= empty <= file - 1,
    ensures
        forall|k: int| 0 <= k < row_fen(p, rank, file, empty).len() ==> !is_ws(
            #[trigger] row_fen(p, rank, file, empty)[k],
        ) && row_fen(p, rank, file, empty)[k] != '/',
        empty > 0 || file <= 11 ==> row_fen(p, rank, file, empty).len() > 0,
    decreases 12 - file,
{
    if file > 11 {
        if empty > 0 {
            lemma_count_digits(empty);
        }
    } else {
        let q = p[spec_sq(file, rank)];
        if q == Piece::Empty {
            lemma_row_chars(p, rank, file + 1, empty + 1);
        } else {
            lemma_row_chars(p, rank, file + 1, 0);
            lemma_fen_char(q);
            let c: Seq<char> = if empty > 0 { count_digits(empty) } else { seq![] };
            if empty > 0 {
                lemma_count_digits(empty);
            }
            let r = row_fen(p, rank, file, empty);
            assert(r == c + seq![fen_char(q)] + row_fen(p, rank, file + 1, 0));
            assert forall|k: int| 0 <= k < r.len() implies !is_ws(#[trigger] r[k]) && r[k] != '/' by {
                if k < c.len() {
                    assert(r[k] == c[k]);
                } else if k == c.len() {
                    assert(r[k] == fen_char(q));
                } else {
                    assert(r[k] == row_fen(p, rank, file + 1, 0)[k - c.len() - 1]);
                }
            }
        }
    }
}

proof fn lemma_ranks_chars(p: Seq<Piece>, rank: int)
    requires
        rank <= 10,
    ensures
        forall|k: int| 0 <= k < ranks_fen(p, rank).len() ==> !is_ws(#[trigger] ranks_fen(p, rank)[k]),
    decreases rank,
{
    if rank >= 1 {
        lemma_ranks_chars(p, rank - 1);
        lemma_row_chars(p, rank, 1, 0);
        let slash: Seq<char> = if rank < 10 { seq!['/'] } else { seq![] };
        let row = row_fen(p, rank, 1, 0);
        let rest = ranks_fen(p, rank - 1);
        let all = ranks_fen(p, rank);
        assert(all == slash + row + rest);
        assert forall|k: int| 0 <= k < all.len() implies !is_ws(#[trigger] all[k]) by {
            if k < slash.len() {
                assert(all[k] == '/');
            } else if k < slash.len() + row.len() {
                assert(all[k] == row[k - slash.len()]);
            } else {
                assert(all[k] == rest[k - slash.len() - row.len()]);
            }
        }
    }
}

/// Reading the text of a row from the parser position matching the printer's
/// (`file`, `empty` pending empty squares) places the row's pieces and ends
/// at file 12, just after the row's text.
proof fn lemma_parse_row(tok: Seq<char>, i: int, p: Seq<Piece>, rank: int, file: int, empty: int, acc: Seq<Piece>, h: u64, keys: Seq<u64>)
    requires
        1 <= rank <= 10,
        1 <= file <= 12,
        0 <= empty <= file - 1,
        0 <= i,
        i + row_fen(p, rank, file, empty).len() <= tok.len(),
        tok.subrange(i, i + row_fen(p, rank, file, empty).len()) == row_fen(p, rank, file, empty),
        i + row_fen(p, rank, file, empty).len() < tok.len() ==> !is_digit(
            tok[i + row_fen(p, rank, file, empty).len()],
        ),
    ensures
        fen_place(tok, i, 10 - rank, file - empty, acc, h, keys) == fen_place(
            tok,
            i + row_fen(p, rank, file, empty).len(),
            10 - rank,
            12,
            place_row(acc, h, keys, p, rank, file).0,
            place_row(acc, h, keys, p, rank, file).1,
            keys,
        ),
    decreases 12 - file,
{
    let row = row_fen(p, rank, file, empty);
    let ri = 10 - rank;
    assert forall|k: int| 0 <= k < row.len() implies tok[i + k] == #[trigger] row[k] by {
        assert(tok.subrange(i, i + row.len())[k] == tok[i + k]);
    }
    if file > 11 {
        if empty > 0 {
            lemma_count_digits(empty);
            if empty >= 10 {
                assert(tok[i] == row[0]);
                assert(tok[i + 1] == row[1]);
            } else {
                assert(tok[i] == row[0]);
            }
        }
    } else {
        let s = spec_sq(file, rank);
        let q = p[s];
        if q == Piece::Empty {
            lemma_parse_row(tok, i, p, rank, file + 1, empty + 1, acc, h, keys);
        } else {
            let c: Seq<char> = if empty > 0 { count_digits(empty) } else { seq![] };
            let rest = row_fen(p, rank, file + 1, 0);
            assert(row == c + seq![fen_char(q)] + rest);
            lemma_fen_char(q);
            let j = i + c.len();
            assert(tok[j] == row[c.len() as int]);
            assert(row[c.len() as int] == fen_char(q));
            // The pending count brings the parser to `file`.
            if empty > 0 {
                lemma_count_digits(empty);
                if empty >= 10 {
                    assert(tok[i] == row[0] && tok[i + 1] == row[1]);
                    assert(fen_place(tok, i, ri, file - empty, acc, h, keys) == fen_place(tok, j, ri, file, acc, h, keys));
                } else {
                    assert(tok[i] == row[0]);
                    assert(fen_place(tok, i, ri, file - empty, acc, h, keys) == fen_place(tok, j, ri, file, acc, h, keys));
                }
            }
            // The letter places the piece.
            let acc2 = acc.update(s, q);
            let h2 = h ^ keys[s * 47 + q.code()];
            assert(spec_sq(file, 10 - ri) == s);
            assert(fen_place(tok, j, ri, file, acc, h, keys) == fen_place(tok, j + 1, ri, file + 1, acc2, h2, keys));
            assert(tok.subrange(j + 1, j + 1 + rest.len()) =~= rest) by {
                assert forall|k: int| 0 <= k < rest.len() implies tok.subrange(j + 1, j + 1 + rest.len())[k] == rest[k] by {
                    assert(row[c.len() + 1 + k] == rest[k]);
                    assert(tok[i + c.len() + 1 + k] == row[c.len() + 1 + k]);
                }
            }
            assert(j + 1 + rest.len() == i + row.len());
            lemma_parse_row(tok, j + 1, p, rank, file + 1, 0, acc2, h2, keys);
        }
    }
}

/// Reading "/row" for ranks `rank` down to 1 places all their pieces and
/// reaches the end of the text without error.
proof fn lemma_parse_ranks(tok: Seq<char>, i: int, p: Seq<Piece>, rank: int, acc: Seq<Piece>, h: u64, keys: Seq<u64>)
    requires
        0 <= rank <= 9,
        0 <= i <= tok.len(),
        tok.subrange(i, tok.len() as int) == ranks_fen(p, rank),
    ensures
        fen_place(tok, i, 9 - rank, 12, acc, h, keys) == (
            place_ranks(acc, h, keys, p, rank).0,
            place_ranks(acc, h, keys, p, rank).1,
            true,
        ),
    decreases rank,
{
    let all = ranks_fen(p, rank);
    assert forall|k: int| 0 <= k < all.len() implies tok[i + k] == #[trigger] all[k] by {
        assert(tok.subrange(i, tok.len() as int)[k] == tok[i + k]);
    }
    if rank == 0 {
        assert(all.len() == 0);
        assert(i == tok.len());
    } else {
        let row = row_fen(p, rank, 1, 0);
        let rest = ranks_fen(p, rank - 1);
        assert(all == seq!['/'] + row + rest);
        assert(all[0] == '/');
        assert(tok[i] == all[0]);
        assert(fen_place(tok, i, 9 - rank, 12, acc, h, keys) == fen_place(tok, i + 1, 10 - rank, 1, acc, h, keys));
        assert(tok.subrange(i + 1, i + 1 + row.len()) =~= row) by {
            assert forall|k: int| 0 <= k < row.len() implies tok.subrange(i + 1, i + 1 + row.len())[k] == row[k] by {
                assert(all[1 + k] == row[k]);
            }
        }
        let e = i + 1 + row.len();
        if e < tok.len() {
            lemma_row_chars(p, rank - 1, 1, 0);
            assert(rank - 1 >= 1);
            assert(all[1 + row.len() as int] == rest[0]);
            assert(rest[0] == '/');
        }
        lemma_parse_row(tok, i + 1, p, rank, 1, 0, acc, h, keys);
        let r = place_row(acc, h, keys, p, rank, 1);
        assert(tok.subrange(e, tok.len() as int) =~= rest) by {
            assert forall|k: int| 0 <= k < rest.len() implies tok.subrange(e, tok.len() as int)[k] == rest[k] by {
                assert(all[1 + row.len() + k] == rest[k]);
            }
        }
        lemma_parse_ranks(tok, e, p, rank - 1, r.0, r.1, keys);
    }
}

// ─── Which squares the parser fills ─────────────────────────────

proof fn lemma_place_row_effect(acc: Seq<Piece>, h: u64, keys: Seq<u64>, p: Seq<Piece>, rank: int, file: int)
    requires
        1 <= rank <= 10,
        1 <= file <= 12,
        acc.len() == 270,
    ensures
        place_row(acc, h, keys, p, rank, file).0.len() == 270,
        forall|s: int| 0 <= s < 270 ==> #[trigger] place_row(acc, h, keys, p, rank, file).0[s] == (if s / 15
            == rank + 3 && file + 1 <= s % 15 <= 12 && p[s] != Piece::Empty {
            p[s]
        } else {
            acc[s]
        }),
    decreases 12 - file,
{
    if file <= 11 {
        let s0 = spec_sq(file, rank);
        lemma_sq_coords(file, rank);
        let q = p[s0];
        if q == Piece::Empty {
            lemma_place_row_effect(acc, h, keys, p, rank, file + 1);
        } else {
            lemma_place_row_effect(acc.update(s0, q), h ^ keys[s0 * 47 + q.code()], keys, p, rank, file + 1);
        }
    }
}

proof fn lemma_place_ranks_effect(acc: Seq<Piece>, h: u64, keys: Seq<u64>, p: Seq<Piece>, rank: int)
    requires
        0 <= rank <= 10,
        acc.len() == 270,
    ensures
        place_ranks(acc, h, keys, p, rank).0.len() == 270,
        forall|s: int| 0 <= s < 270 ==> #[trigger] place_ranks(acc, h, keys, p, rank).0[s] == (if 4 <= s / 15
            <= rank + 3 && 2 <= s % 15 <= 12 && p[s] != Piece::Empty {
            p[s]
        } else {
            acc[s]
        }),
    decreases rank,
{
    if rank >= 1 {
        lemma_place_row_effect(acc, h, keys, p, rank, 1);
        let r = place_row(acc, h, keys, p, rank, 1);
        lemma_place_ranks_effect(r.0, r.1, keys, p, rank - 1);
    }
}

// ─── The hash the parser accumulates ────────────────────────────

proof fn lemma_empty_hash(keys: Seq<u64>, n: int)
    requires
        0 <= n <= 270,
    ensures
        pieces_hash(empty_pieces(), keys, n) == 0,
    decreases n,
{
    if n > 0 {
        lemma_empty_hash(keys, n - 1);
        lemma_xor_zero(0);
    }
}

proof fn lemma_place_row_hash(acc: Seq<Piece>, h: u64, keys: Seq<u64>, p: Seq<Piece>, rank: int, file: int)
    requires
        1 <= rank <= 10,
        1 <= file <= 12,
        acc.len() == 270,
        h == pieces_hash(acc, keys, 270),
        forall|f: int| file <= f <= 11 ==> #[trigger] acc[spec_sq(f, rank)] == Piece::Empty,
    ensures
        place_row(acc, h, keys, p, rank, file).1 == pieces_hash(place_row(acc, h, keys, p, rank, file).0, keys, 270),
    decreases 12 - file,
{
    if file <= 11 {
        let s0 = spec_sq(file, rank);
        let q = p[s0];
        if q == Piece::Empty {
            lemma_place_row_hash(acc, h, keys, p, rank, file + 1);
        } else {
            assert(acc[s0] == Piece::Empty);
            lemma_hash_update(acc, keys, 270, s0, q);
            lemma_xor_zero(h);
            let acc2 = acc.update(s0, q);
            assert forall|f: int| file + 1 <= f <= 11 implies #[trigger] acc2[spec_sq(f, rank)] == Piece::Empty by {
                assert(acc[spec_sq(f, rank)] == Piece::Empty);
            }
            lemma_place_row_hash(acc2, h ^ keys[s0 * 47 + q.code()], keys, p, rank, file + 1);
        }
    }
}

proof fn lemma_place_ranks_hash(acc: Seq<Piece>, h: u64, keys: Seq<u64>, p: Seq<Piece>, rank: int)
    requires
        0 <= rank <= 10,
        acc.len() == 270,
        h == pieces_hash(acc, keys, 270),
        forall|f: int, r: int| 1 <= f <= 11 && 1 <= r <= rank ==> #[trigger] acc[spec_sq(f, r)] == Piece::Empty,
    ensures
        place_ranks(acc, h, keys, p, rank).1 == pieces_hash(place_ranks(acc, h, keys, p, rank).0, keys, 270),
    decreases rank,
{
    if rank >= 1 {
        lemma_place_row_hash(acc, h, keys, p, rank, 1);
        lemma_place_row_effect(acc, h, keys, p, rank, 1);
        let r = place_row(acc, h, keys, p, rank, 1);
        assert forall|f: int, rr: int| 1 <= f <= 11 && 1 <= rr <= rank - 1 implies #[trigger] r.0[spec_sq(f, rr)] == Piece::Empty by {
            lemma_sq_coords(f, rr);
            assert(acc[spec_sq(f, rr)] == Piece::Empty);
        }
        lemma_place_ranks_hash(r.0, r.1, keys, p, rank - 1);
    }
}

// ─── Text layout of a written position ──────────────────────────

proof fn lemma_token_end_run(s: Seq<char>, i: int, l: int)
    requires
        0 <= i <= l < s.len(),
        forall|k: int| i <= k < l ==> !is_ws(#[trigger] s[k]),
        is_ws(s[l]),
    ensures
        token_end(s, i) == l,
    decreases l - i,
{
    if i < l {
        lemma_token_end_run(s, i + 1, l);
    }
}

/// The pieces of a position that FEN can record: those on the 110 ordinary
/// squares (FEN has no field for the citadels).
pub open spec fn main_pieces(pieces: Seq<Piece>) -> Seq<Piece> {
    Seq::new(270, |s: int| if main_square(s) { pieces[s] } else { Piece::Empty })
}

/// FEN written by `to_fen` reads back, for every position: the text is
/// readable, places exactly the pieces of the 110 ordinary squares (the
/// citadels come back empty) and names the side to move.
pub proof fn lemma_fen_round_trip(pieces: Seq<Piece>, side: Color)
    requires
        pieces.len() == 270,
    ensures
        fen_readable(board_fen(pieces, side)),
        fen_position(board_fen(pieces, side)).0 == main_pieces(pieces),
        fen_black(board_fen(pieces, side)) == (side == Color::Black),
        fen_position(board_fen(pieces, side)).1 == pieces_hash(main_pieces(pieces), standard_keys(), 270),
{
    let text = board_fen(pieces, side);
    let ranks = ranks_fen(pieces, 10);
    let l = ranks.len() as int;
    let side_char = if side == Color::White { 'w' } else { 'b' };
    assert(text == ranks + seq![' ', side_char]);
    lemma_ranks_chars(pieces, 10);
    lemma_row_chars(pieces, 10, 1, 0);
    let row10 = row_fen(pieces, 10, 1, 0);
    let rest = ranks_fen(pieces, 9);
    assert(ranks == row10 + rest);
    assert(l > 0);
    assert forall|k: int| 0 <= k < l implies !is_ws(#[trigger] text[k]) by {
        assert(text[k] == ranks[k]);
    }
    assert(text[l] == ' ');
    assert(text[l + 1] == side_char);
    assert(!is_ws(text[0]));
    assert(skip_ws(text, 0) == 0);
    lemma_token_end_run(text, 0, l);
    assert(fen_board_field(text) =~= ranks);
    // The side field.
    assert(skip_ws(text, l) == l + 1) by {
        assert(is_ws(text[l]));
        assert(!is_ws(text[l + 1]));
        assert(skip_ws(text, l + 1) == l + 1);
    }
    assert(token_end(text, l + 1) == l + 2) by {
        assert(token_end(text, l + 2) == l + 2);
    }
    assert(text.subrange(l + 1, l + 2) =~= seq![side_char]);
    if side == Color::White {
        assert(seq![side_char] != seq!['b']) by {
            assert(seq![side_char][0] != seq!['b'][0]);
        }
    }
    // The placement field.
    let tok = ranks;
    let keys = standard_keys();
    let e0 = empty_pieces();
    assert(tok.subrange(0, row10.len() as int) =~= row10);
    if row10.len() < tok.len() {
        lemma_row_chars(pieces, 9, 1, 0);
        assert(tok[row10.len() as int] == rest[0]);
    }
    lemma_parse_row(tok, 0, pieces, 10, 1, 0, e0, 0, keys);
    let r = place_row(e0, 0, keys, pieces, 10, 1);
    assert(tok.subrange(row10.len() as int, tok.len() as int) =~= rest);
    lemma_parse_ranks(tok, row10.len() as int, pieces, 9, r.0, r.1, keys);
    assert(place_ranks(e0, 0, keys, pieces, 10) == place_ranks(r.0, r.1, keys, pieces, 9));
    lemma_place_ranks_effect(e0, 0, keys, pieces, 10);
    lemma_empty_hash(keys, 270);
    lemma_place_ranks_hash(e0, 0, keys, pieces, 10);
    let out = place_ranks(e0, 0, keys, pieces, 10).0;
    assert(out =~= main_pieces(pieces));
}

/// Writing a position with `to_fen` and reading the text with `from_fen`
/// gives back, for every position, its pieces on the 110 ordinary squares
/// (the citadels come back empty) and its side to move, with the hash computed
/// from scratch (all pieces' keys, and the side key when Black is to move); a
/// position with empty citadels comes back whole.
pub proof fn lemma_board_round_trip(b: BoardView, r: Board)
    requires
        b.pieces.len() == 270,
        reads_fen(r, board_fen(b.pieces, b.side)),
    ensures
        forall|s: int| 0 <= s < 270 ==> #[trigger] r@.pieces[s] == (if main_square(s) {
            b.pieces[s]
        } else {
            Piece::Empty
        }),
        (forall|s: int| 0 <= s < 270 && !main_square(s) ==> #[trigger] b.pieces[s] == Piece::Empty)
            ==> r@.pieces == b.pieces,
        r.side == b.side,
        r.hash == full_hash(r@),
{
    lemma_fen_round_trip(b.pieces, b.side);
    if forall|s: int| 0 <= s < 270 && !main_square(s) ==> #[trigger] b.pieces[s] == Piece::Empty {
        assert(r@.pieces =~= b.pieces);
    }
}

// ─── Any FEN text: the hash read is the full hash ──────────────

/// The parser's squares still to come: rank fields after `ri`, and the files
/// from `file` on in field `ri`.
pub open spec fn ahead(f: int, r: int, ri: int, file: int) -> bool {
    1 <= f <= 11 && 0 <= r <= 13 && (r > ri || (r == ri && f >= file))
}

proof fn lemma_fen_place_hash(tok: Seq<char>, i: int, ri: int, file: int, acc: Seq<Piece>, h: u64, keys: Seq<u64>)
    requires
        0 <= ri,
        1 <= file,
        acc.len() == 270,
        h == pieces_hash(acc, keys, 270),
        forall|f: int, r: int| #[trigger] ahead(f, r, ri, file) ==> acc[spec_sq(f, 10 - r)] == Piece::Empty,
    ensures
        fen_place(tok, i, ri, file, acc, h, keys).1 == pieces_hash(fen_place(tok, i, ri, file, acc, h, keys).0, keys, 270),
        fen_place(tok, i, ri, file, acc, h, keys).0.len() == 270,
    decreases tok.len() - i,
{
    if i < 0 || i >= tok.len() {
    } else {
        let c = tok[i];
        if c == '/' {
            assert forall|f: int, r: int| #[trigger] ahead(f, r, ri + 1, 1) implies acc[spec_sq(f, 10 - r)] == Piece::Empty by {
                assert(ahead(f, r, ri, file));
            }
            lemma_fen_place_hash(tok, i + 1, ri + 1, 1, acc, h, keys);
        } else if file > 11 {
            lemma_fen_place_hash(tok, i + 1, ri, file, acc, h, keys);
        } else if is_digit(c) {
            if i + 1 < tok.len() && is_digit(tok[i + 1]) {
                let nf = file + digit_value(c) * 10 + digit_value(tok[i + 1]);
                assert forall|f: int, r: int| #[trigger] ahead(f, r, ri, nf) implies acc[spec_sq(f, 10 - r)] == Piece::Empty by {
                    assert(ahead(f, r, ri, file));
                }
                lemma_fen_place_hash(tok, i + 2, ri, nf, acc, h, keys);
            } else {
                let nf = file + digit_value(c);
                assert forall|f: int, r: int| #[trigger] ahead(f, r, ri, nf) implies acc[spec_sq(f, 10 - r)] == Piece::Empty by {
                    assert(ahead(f, r, ri, file));
                }
                lemma_fen_place_hash(tok, i + 1, ri, nf, acc, h, keys);
            }
        } else {
            let p = fen_piece(c);
            if p == Piece::Empty {
                assert forall|f: int, r: int| #[trigger] ahead(f, r, ri, file + 1) implies acc[spec_sq(f, 10 - r)] == Piece::Empty by {
                    assert(ahead(f, r, ri, file));
                }
                lemma_fen_place_hash(tok, i + 1, ri, file + 1, acc, h, keys);
            } else if ri > 13 {
            } else {
                let sq0 = spec_sq(file, 10 - ri);
                assert(ahead(file, ri, ri, file));
                assert(acc[sq0] == Piece::Empty);
                lemma_hash_update(acc, keys, 270, sq0, p);
                lemma_xor_zero(h);
                let acc2 = acc.update(sq0, p);
                assert forall|f: int, r: int| #[trigger] ahead(f, r, ri, file + 1) implies acc2[spec_sq(f, 10 - r)] == Piece::Empty by {
                    assert(ahead(f, r, ri, file));
                    assert(spec_sq(f, 10 - r) != sq0);
                }
                lemma_fen_place_hash(tok, i + 1, ri, file + 1, acc2, h ^ keys[sq0 * 47 + p.code()], keys);
            }
        }
    }
}

/// A position read from any FEN text carries the hash computed from scratch:
/// the keys of all its pieces, and the side key when Black is to move.
pub proof fn lemma_fen_hash(b: Board, s: Seq<char>)
    requires
        reads_fen(b, s),
    ensures
        b.hash == full_hash(b@),
{
    let keys = standard_keys();
    lemma_empty_hash(keys, 270);
    lemma_fen_place_hash(fen_board_field(s), 0, 0, 1, empty_pieces(), 0, keys);
}

// ─── The starting position is readable ──────────────────────────

/// Whether reading the placement field from index `i` succeeds (the flag of
/// `fen_place`, which depends on the text alone).
pub open spec fn fen_flag(tok: Seq<char>, i: int, ri: int, file: int) -> bool
    decreases tok.len() - i,
{
    if i < 0 || i >= tok.len() {
        true
    } else {
        let c = tok[i];
        if c == '/' {
            fen_flag(tok, i + 1, ri + 1, 1)
        } else if file > 11 {
            fen_flag(tok, i + 1, ri, file)
        } else if is_digit(c) {
            if i + 1 < tok.len() && is_digit(tok[i + 1]) {
                fen_flag(tok, i + 2, ri, file + digit_value(c) * 10 + digit_value(tok[i + 1]))
            } else {
                fen_flag(tok, i + 1, ri, file + digit_value(c))
            }
        } else if fen_piece(c) == Piece::Empty {
            fen_flag(tok, i + 1, ri, file + 1)
        } else if ri > 13 {
            false
        } else {
            fen_flag(tok, i + 1, ri, file + 1)
        }
    }
}

proof fn lemma_fen_flag(tok: Seq<char>, i: int, ri: int, file: int, acc: Seq<Piece>, h: u64, keys: Seq<u64>)
    ensures
        fen_place(tok, i, ri, file, acc, h, keys).2 == fen_flag(tok, i, ri, file),
    decreases tok.len() - i,
{
    if i < 0 || i >= tok.len() {
    } else {
        let c = tok[i];
        if c == '/' {
            lemma_fen_flag(tok, i + 1, ri + 1, 1, acc, h, keys);
        } else if file > 11 {
            lemma_fen_flag(tok, i + 1, ri, file, acc, h, keys);
        } else if is_digit(c) {
            if i + 1 < tok.len() && is_digit(tok[i + 1]) {
                lemma_fen_flag(tok, i + 2, ri, file + digit_value(c) * 10 + digit_value(tok[i + 1]), acc, h, keys);
            } else {
                lemma_fen_flag(tok, i + 1, ri, file + digit_value(c), acc, h, keys);
            }
        } else {
            let p = fen_piece(c);
            if p == Piece::Empty {
                lemma_fen_flag(tok, i + 1, ri, file + 1, acc, h, keys);
            } else if ri > 13 {
            } else {
                let s = spec_sq(file, 10 - ri);
                lemma_fen_flag(tok, i + 1, ri, file + 1, acc.update(s, p), h ^ keys[s * 47 + p.code()], keys);
            }
        }
    }
}

/// The text of the standard starting position.
pub open spec fn start_text() -> Seq<char> {
    seq!['f', '1', 'd', '1', 'i', '1', 'i', '1', 'd', '1', 'f', '/', 'k', 'a', 'm', 'z', 'g', 's', 'v', 'z', 'm', 'a', 'k', '1', '/', 'p', 'x', 'c', 'b', 'y', 'q', 'e', 'h', 't', 'n', 'r', '/', '9', '2', '/', '9', '2', '/', '9', '2', '/', '9', '2', '/', 'P', 'X', 'C', 'B', 'Y', 'Q', 'E', 'H', 'T', 'N', 'R', '/', 'K', 'A', 'M', 'Z', 'G', 'S', 'V', 'Z', 'M', 'A', 'K', '1', '/', 'F', '1', 'D', '1', 'I', '1', 'I', '1', 'D', '1', 'F', ' ', 'w']
}

/// The standard starting position is readable f1d1i1i1d1f/kamzgsvzmak1/pxcbyqehtnr/92/92/92/92/PXCBYQEHTNR/KAMZGSVZMAK1/F1D1I1I1D1F w.
pub proof fn lemma_start_fen_readable()
    ensures
        fen_readable(crate::board::START_FEN@),
{
    reveal_strlit("f1d1i1i1d1f/kamzgsvzmak1/pxcbyqehtnr/92/92/92/92/PXCBYQEHTNR/KAMZGSVZMAK1/F1D1I1I1D1F w");
    assert(crate::board::START_FEN@ =~= start_text());
    let t = start_text();
    assert(skip_ws(t, 0) == 0);
    assert(token_end(t, 0) == 85) by {
        reveal_with_fuel(token_end, 90);
    }
    let tok: Seq<char> = seq!['f', '1', 'd', '1', 'i', '1', 'i', '1', 'd', '1', 'f', '/', 'k', 'a', 'm', 'z', 'g', 's', 'v', 'z', 'm', 'a', 'k', '1', '/', 'p', 'x', 'c', 'b', 'y', 'q', 'e', 'h', 't', 'n', 'r', '/', '9', '2', '/', '9', '2', '/', '9', '2', '/', '9', '2', '/', 'P', 'X', 'C', 'B', 'Y', 'Q', 'E', 'H', 'T', 'N', 'R', '/', 'K', 'A', 'M', 'Z', 'G', 'S', 'V', 'Z', 'M', 'A', 'K', '1', '/', 'F', '1', 'D', '1', 'I', '1', 'I', '1', 'D', '1', 'F'];
    assert(t.subrange(0, 85) =~= tok);
    assert(fen_flag(tok, 85, 9, 12)) by {
        reveal_with_fuel(fen_flag, 16);
    }
    assert(fen_flag(tok, 73, 8, 12)) by {
        reveal_with_fuel(fen_flag, 16);
    }
    assert(fen_flag(tok, 60, 7, 12)) by {
        reveal_with_fuel(fen_flag, 16);
    }
    assert(fen_flag(tok, 48, 6, 93)) by {
        reveal_with_fuel(fen_flag, 16);
    }
    assert(fen_flag(tok, 45, 5, 93)) by {
        reveal_with_fuel(fen_flag, 16);
    }
    assert(fen_flag(tok, 42, 4, 93)) by {
        reveal_with_fuel(fen_flag, 16);
    }
    assert(fen_flag(tok, 39, 3, 93)) by {
        reveal_with_fuel(fen_flag, 16);
    }
    assert(fen_flag(tok, 36, 2, 12)) by {
        reveal_with_fuel(fen_flag, 16);
    }
    assert(fen_flag(tok, 24, 1, 12)) by {
        reveal_with_fuel(fen_flag, 16);
    }
    assert(fen_flag(tok, 11, 0, 12)) by {
        reveal_with_fuel(fen_flag, 16);
    }
    assert(fen_flag(tok, 0, 0, 1)) by {
        reveal_with_fuel(fen_flag, 16);
    }
    lemma_fen_flag(fen_board_field(t), 0, 0, 1, empty_pieces(), 0, standard_keys());
}

// ─── The letters of the format ──────────────────────────────────

/// The letters of the FEN format: each letter reads as its own piece and each
/// piece is written with its own letter (upper case for White, lower case for
/// Black): pawns P X C B Y Q E H T N R (of pawns, war engines, camels,
/// elephants, ministers, kings, advisors, giraffes, catapults, knights, rooks),
/// then K rook, A knight, M catapult, Z giraffe, G minister, S king, V advisor,
/// F elephant, D camel, I war engine, J prince, L adventitious king.
pub proof fn lemma_fen_letters()
    ensures
        fen_piece('P') == Piece::WPawnPawn && fen_char(Piece::WPawnPawn) == 'P',
        fen_piece('X') == Piece::WPawnWarengine && fen_char(Piece::WPawnWarengine) == 'X',
        fen_piece('C') == Piece::WPawnCamel && fen_char(Piece::WPawnCamel) == 'C',
        fen_piece('B') == Piece::WPawnElephant && fen_char(Piece::WPawnElephant) == 'B',
        fen_piece('Y') == Piece::WPawnMinister && fen_char(Piece::WPawnMinister) == 'Y',
        fen_piece('Q') == Piece::WPawnKing && fen_char(Piece::WPawnKing) == 'Q',
        fen_piece('E') == Piece::WPawnAdvisor && fen_char(Piece::WPawnAdvisor) == 'E',
        fen_piece('H') == Piece::WPawnGiraffe && fen_char(Piece::WPawnGiraffe) == 'H',
        fen_piece('T') == Piece::WPawnCatapult && fen_char(Piece::WPawnCatapult) == 'T',
        fen_piece('N') == Piece::WPawnKnight && fen_char(Piece::WPawnKnight) == 'N',
        fen_piece('R') == Piece::WPawnRook && fen_char(Piece::WPawnRook) == 'R',
        fen_piece('K') == Piece::WRook && fen_char(Piece::WRook) == 'K',
        fen_piece('A') == Piece::WKnight && fen_char(Piece::WKnight) == 'A',
        fen_piece('M') == Piece::WCatapult && fen_char(Piece::WCatapult) == 'M',
        fen_piece('Z') == Piece::WGiraffe && fen_char(Piece::WGiraffe) == 'Z',
        fen_piece('G') == Piece::WMinister && fen_char(Piece::WMinister) == 'G',
        fen_piece('S') == Piece::WKing && fen_char(Piece::WKing) == 'S',
        fen_piece('V') == Piece::WAdvisor && fen_char(Piece::WAdvisor) == 'V',
        fen_piece('F') == Piece::WElephant && fen_char(Piece::WElephant) == 'F',
        fen_piece('D') == Piece::WCamel && fen_char(Piece::WCamel) == 'D',
        fen_piece('I') == Piece::WWarengine && fen_char(Piece::WWarengine) == 'I',
        fen_piece('J') == Piece::WPrince && fen_char(Piece::WPrince) == 'J',
        fen_piece('L') == Piece::WAdKing && fen_char(Piece::WAdKing) == 'L',
        fen_piece('p') == Piece::BPawnPawn && fen_char(Piece::BPawnPawn) == 'p',
        fen_piece('x') == Piece::BPawnWarengine && fen_char(Piece::BPawnWarengine) == 'x',
        fen_piece('c') == Piece::BPawnCamel && fen_char(Piece::BPawnCamel) == 'c',
        fen_piece('b') == Piece::BPawnElephant && fen_char(Piece::BPawnElephant) == 'b',
        fen_piece('y') == Piece::BPawnMinister && fen_char(Piece::BPawnMinister) == 'y',
        fen_piece('q') == Piece::BPawnKing && fen_char(Piece::BPawnKing) == 'q',
        fen_piece('e') == Piece::BPawnAdvisor && fen_char(Piece::BPawnAdvisor) == 'e',
        fen_piece('h') == Piece::BPawnGiraffe && fen_char(Piece::BPawnGiraffe) == 'h',
        fen_piece('t') == Piece::BPawnCatapult && fen_char(Piece::BPawnCatapult) == 't',
        fen_piece('n') == Piece::BPawnKnight && fen_char(Piece::BPawnKnight) == 'n',
        fen_piece('r') == Piece::BPawnRook && fen_char(Piece::BPawnRook) == 'r',
        fen_piece('k') == Piece::BRook && fen_char(Piece::BRook) == 'k',
        fen_piece('a') == Piece::BKnight && fen_char(Piece::BKnight) == 'a',
        fen_piece('m') == Piece::BCatapult && fen_char(Piece::BCatapult) == 'm',
        fen_piece('z') == Piece::BGiraffe && fen_char(Piece::BGiraffe) == 'z',
        fen_piece('g') == Piece::BMinister && fen_char(Piece::BMinister) == 'g',
        fen_piece('s') == Piece::BKing && fen_char(Piece::BKing) == 's',
        fen_piece('v') == Piece::BAdvisor && fen_char(Piece::BAdvisor) == 'v',
        fen_piece('f') == Piece::BElephant && fen_char(Piece::BElephant) == 'f',
        fen_piece('d') == Piece::BCamel && fen_char(Piece::BCamel) == 'd',
        fen_piece('i') == Piece::BWarengine && fen_char(Piece::BWarengine) == 'i',
        fen_piece('j') == Piece::BPrince && fen_char(Piece::BPrince) == 'j',
        fen_piece('l') == Piece::BAdKing && fen_char(Piece::BAdKing) == 'l',
{
}

/// The Black piece of the same kind as a White one.
pub open spec fn black_of(p: Piece) -> Piece {
    Piece::from_code((p.code() + 23) as u8)
}

/// A lower-case letter reads as the Black counterpart of what its upper-case
/// letter reads as, and the pawn letter of each kind reads as the pawn that
/// promotes to the piece of that kind.
pub proof fn lemma_fen_letter_relations()
    ensures
        black_of(fen_piece('P')) == fen_piece('p'),
        black_of(fen_piece('X')) == fen_piece('x'),
        black_of(fen_piece('C')) == fen_piece('c'),
        black_of(fen_piece('B')) == fen_piece('b'),
        black_of(fen_piece('Y')) == fen_piece('y'),
        black_of(fen_piece('Q')) == fen_piece('q'),
        black_of(fen_piece('E')) == fen_piece('e'),
        black_of(fen_piece('H')) == fen_piece('h'),
        black_of(fen_piece('T')) == fen_piece('t'),
        black_of(fen_piece('N')) == fen_piece('n'),
        black_of(fen_piece('R')) == fen_piece('r'),
        black_of(fen_piece('K')) == fen_piece('k'),
        black_of(fen_piece('A')) == fen_piece('a'),
        black_of(fen_piece('M')) == fen_piece('m'),
        black_of(fen_piece('Z')) == fen_piece('z'),
        black_of(fen_piece('G')) == fen_piece('g'),
        black_of(fen_piece('S')) == fen_piece('s'),
        black_of(fen_piece('V')) == fen_piece('v'),
        black_of(fen_piece('F')) == fen_piece('f'),
        black_of(fen_piece('D')) == fen_piece('d'),
        black_of(fen_piece('I')) == fen_piece('i'),
        black_of(fen_piece('J')) == fen_piece('j'),
        black_of(fen_piece('L')) == fen_piece('l'),
        fen_piece('X').promotion() == fen_piece('I'),
        fen_piece('C').promotion() == fen_piece('D'),
        fen_piece('B').promotion() == fen_piece('F'),
        fen_piece('Y').promotion() == fen_piece('G'),
        fen_piece('Q').promotion() == fen_piece('J'),
        fen_piece('E').promotion() == fen_piece('V'),
        fen_piece('H').promotion() == fen_piece('Z'),
        fen_piece('T').promotion() == fen_piece('M'),
        fen_piece('N').promotion() == fen_piece('A'),
        fen_piece('R').promotion() == fen_piece('K'),
        fen_piece('P').promotion() == fen_piece('L'),
{
}

} // verus!
