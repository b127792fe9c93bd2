use vstd::prelude::*;
use std::sync::Arc;
use crate::types::{
    mv_from, mv_is_promotion, mv_promoted_to, mv_to, spec_mv_from, spec_mv_is_promotion, spec_mv_promoted_to, spec_mv_to, spec_sq, sq, Color,
    Move, Piece, MAILBOX_SIZE,
};

verus! {

// ─── Off-board detection ─────────────────────────────────────────

/// File/rank entry of a square that is not part of the playing area.
pub const OFF: i32 = -1;

/// The 110 ordinary squares: files 1..11, ranks 1..10.
pub open spec fn main_square(s: int) -> bool {
    0 <= s < 270 && 2 <= s % 15 <= 12 && 4 <= s / 15 <= 13
}

/// Playing squares: the 110 ordinary squares and the two citadels,
/// sq(6, 0) = 52 and sq(6, 11) = 217.
pub open spec fn on_board(s: int) -> bool {
    main_square(s) || s == 52 || s == 217
}

/// File of a square, OFF for squares outside the playing area.
pub open spec fn spec_file_brd(s: int) -> i32 {
    if on_board(s) { (s % 15 - 1) as i32 } else { OFF }
}

/// Rank of a square, OFF for squares outside the playing area.
pub open spec fn spec_rank_brd(s: int) -> i32 {
    if on_board(s) { (s / 15 - 3) as i32 } else { OFF }
}

/// Files of playing squares are 1..11, ranks 0..11 (0 and 11 only for the citadels).
pub proof fn lemma_on_board_coords(s: int)
    requires
        on_board(s),
    ensures
        1 <= spec_file_brd(s) <= 11,
        0 <= spec_rank_brd(s) <= 11,
{
    if s == 52 {
        assert(52int % 15 == 7 && 52int / 15 == 3);
    } else if s == 217 {
        assert(217int % 15 == 7 && 217int / 15 == 14);
    }
}

/// The k-th square (0 <= k < 110) of a scan over ranks 1..10, files 1..11 within each rank.
pub open spec fn scan_square(k: int) -> int {
    spec_sq(k % 11 + 1, k / 11 + 1)
}

/// Column and row of sq(file, rank).
pub proof fn lemma_sq_coords(file: int, rank: int)
    requires
        -1 <= file <= 13,
        -3 <= rank,
    ensures
        spec_sq(file, rank) % 15 == file + 1,
        spec_sq(file, rank) / 15 == rank + 3,
{
    vstd::arithmetic::div_mod::lemma_fundamental_div_mod_converse(
        spec_sq(file, rank),
        15,
        rank + 3,
        file + 1,
    );
}

/// The scan index of (file, rank) and its square.
pub proof fn lemma_scan_index(file: int, rank: int)
    requires
        1 <= file <= 11,
        1 <= rank <= 10,
    ensures
        scan_square((rank - 1) * 11 + file - 1) == spec_sq(file, rank),
        main_square(spec_sq(file, rank)),
        0 <= (rank - 1) * 11 + file - 1 < 110,
        ((rank - 1) * 11 + file - 1) % 11 == file - 1,
        ((rank - 1) * 11 + file - 1) / 11 == rank - 1,
        spec_sq(file, rank) % 15 == file + 1,
        spec_sq(file, rank) / 15 == rank + 3,
{
    let k = (rank - 1) * 11 + file - 1;
    vstd::arithmetic::div_mod::lemma_fundamental_div_mod_converse(k, 11, rank - 1, file - 1);
    lemma_sq_coords(file, rank);
}

/// Every scanned square is an ordinary square, and distinct scan indices give distinct squares.
pub proof fn lemma_scan_square(k: int)
    requires
        0 <= k < 110,
    ensures
        main_square(scan_square(k)),
        1 <= scan_square(k) % 15 - 1 <= 11,
        1 <= scan_square(k) / 15 - 3 <= 10,
        scan_square(k) == spec_sq(scan_square(k) % 15 - 1, scan_square(k) / 15 - 3),
        k == (scan_square(k) / 15 - 4) * 11 + scan_square(k) % 15 - 2,
{
    lemma_sq_coords(k % 11 + 1, k / 11 + 1);
}

/// Is the square outside the playing area?
pub fn is_off_board(s: usize) -> (b: bool)
    ensures
        b == !on_board(s as int),
{
    if s >= MAILBOX_SIZE {
        return true;
    }
    let c = s % 15;
    let r = s / 15;
    !((c >= 2 && c <= 12 && r >= 4 && r <= 13) || s == 52 || s == 217)
}

/// File of a mailbox square (OFF outside the playing area).
pub fn file_brd(s: usize) -> (f: i32)
    requires
        s < MAILBOX_SIZE,
    ensures
        f == spec_file_brd(s as int),
{
    if is_off_board(s) {
        OFF
    } else {
        (s % 15) as i32 - 1
    }
}

/// Rank of a mailbox square (OFF outside the playing area).
pub fn rank_brd(s: usize) -> (r: i32)
    requires
        s < MAILBOX_SIZE,
    ensures
        r == spec_rank_brd(s as int),
{
    if is_off_board(s) {
        OFF
    } else {
        (s / 15) as i32 - 3
    }
}

/// The file and rank tables of the whole mailbox.
pub fn init_files_ranks() -> (r: ([i32; MAILBOX_SIZE], [i32; MAILBOX_SIZE]))
    ensures
        forall|s: int| 0 <= s < 270 ==> #[trigger] r.0@[s] == spec_file_brd(s),
        forall|s: int| 0 <= s < 270 ==> #[trigger] r.1@[s] == spec_rank_brd(s),
{
    let mut files = [-1i32; 270];
    let mut ranks = [-1i32; 270];
    let mut r: i32 = 1;
    while r <= 10
        invariant
            1 <= r <= 11,
            forall|s: int|
                0 <= s < 270 ==> #[trigger] files@[s] == (if main_square(s) && s / 15 - 3 < r {
                    (s % 15 - 1) as i32
                } else {
                    OFF
                }),
            forall|s: int|
                0 <= s < 270 ==> #[trigger] ranks@[s] == (if main_square(s) && s / 15 - 3 < r {
                    (s / 15 - 3) as i32
                } else {
                    OFF
                }),
        decreases 11 - r,
    {
        let mut f: i32 = 1;
        while f <= 11
            invariant
                1 <= r <= 10,
                1 <= f <= 12,
                forall|s: int|
                    0 <= s < 270 ==> #[trigger] files@[s] == (if main_square(s) && (s / 15 - 3 < r
                        || (s / 15 - 3 == r && s % 15 - 1 < f)) {
                        (s % 15 - 1) as i32
                    } else {
                        OFF
                    }),
                forall|s: int|
                    0 <= s < 270 ==> #[trigger] ranks@[s] == (if main_square(s) && (s / 15 - 3 < r
                        || (s / 15 - 3 == r && s % 15 - 1 < f)) {
                        (s / 15 - 3) as i32
                    } else {
                        OFF
                    }),
            decreases 12 - f,
        {
            proof {
                lemma_sq_coords(f as int, r as int);
            }
            let s = sq(f, r);
            files[s] = f;
            ranks[s] = r;
            f += 1;
        }
        r += 1;
    }
    proof {
        lemma_sq_coords(6, 0);
        lemma_sq_coords(6, 11);
    }
    let wc = sq(6, 0);
    let bc = sq(6, 11);
    files[wc] = 6;
    ranks[wc] = 0;
    files[bc] = 6;
    ranks[bc] = 11;
    (files, ranks)
}

// ─── Zobrist keys ───────────────────────────────────────────────

/// One xorshift step.
pub open spec fn xorshift(x: u64) -> u64 {
    let a = x ^ (x << 13u64);
    let b = a ^ (a >> 7u64);
    b ^ (b << 17u64)
}

/// The state of the generator after `n` steps from `seed`.
pub open spec fn rng_state(seed: u64, n: nat) -> u64
    decreases n,
{
    if n == 0 {
        seed
    } else {
        xorshift(rng_state(seed, (n - 1) as nat))
    }
}

/// Seed of the Zobrist key sequence.
pub const ZOBRIST_SEED: u64 = 0xBEEF_CAFE_1234_5678;

/// Number of piece keys: one per (square, piece code).
pub const NUM_PIECE_KEYS: usize = 12690;

/// The piece keys drawn from the generator seeded with ZOBRIST_SEED, square by
/// square and piece code by piece code.
pub open spec fn standard_keys() -> Seq<u64> {
    Seq::new(NUM_PIECE_KEYS as nat, |i: int| rng_state(ZOBRIST_SEED, (i + 1) as nat))
}

/// The side key, drawn after all piece keys.
pub open spec fn standard_side_key() -> u64 {
    rng_state(ZOBRIST_SEED, (NUM_PIECE_KEYS + 1) as nat)
}

/// A xorshift generator.
pub struct SimpleRng(pub u64);

impl SimpleRng {
    pub fn new(seed: u64) -> (r: Self)
        ensures
            r.0 == seed,
    {
        SimpleRng(seed)
    }

    /// Advances the generator and returns the new state.
    pub fn next(&mut self) -> (r: u64)
        ensures
            final(self).0 == xorshift(old(self).0),
            r == final(self).0,
    {
        let x = self.0;
        let a = x ^ (x << 13u64);
        let b = a ^ (a >> 7u64);
        let c = b ^ (b << 17u64);
        self.0 = c;
        c
    }
}

/// Zobrist keys: `pieces[s * 47 + code]` for a piece on square s, and the side key.
pub struct ZobristKeys {
    pub pieces: Vec<u64>,
    pub side: u64,
}

impl ZobristKeys {
    /// The keys drawn from the generator seeded with ZOBRIST_SEED: the piece keys
    /// square by square, piece code by piece code, then the side key.
    pub open spec fn standard(self) -> bool {
        &&& self.pieces@ == standard_keys()
        &&& self.side == standard_side_key()
    }

    pub fn new() -> (z: Self)
        ensures
            z.standard(),
    {
        let mut rng = SimpleRng::new(ZOBRIST_SEED);
        let mut pieces: Vec<u64> = Vec::new();
        let mut i: usize = 0;
        while i < NUM_PIECE_KEYS
            invariant
                i <= NUM_PIECE_KEYS,
                pieces@.len() == i,
                rng.0 == rng_state(ZOBRIST_SEED, i as nat),
                forall|j: int|
                    0 <= j < i ==> #[trigger] pieces@[j] == rng_state(ZOBRIST_SEED, (j + 1) as nat),
            decreases NUM_PIECE_KEYS - i,
        {
            let v = rng.next();
            pieces.push(v);
            i += 1;
        }
        let side = rng.next();
        assert(pieces@ =~= standard_keys());
        ZobristKeys { pieces, side }
    }
}

// ─── Undo info ──────────────────────────────────────────────────

/// What `make_move` records so that `unmake_move` can restore the board.
#[derive(Clone, Copy)]
pub struct UndoInfo {
    pub mv: Move,
    pub captured: Piece,
    pub hash: u64,
    pub half_moves: u16,
}

// ─── Board ──────────────────────────────────────────────────────

/// A position: the mailbox, side to move, Zobrist hash, ply and fifty-move
/// counters, the stack of undo records, and the Zobrist keys in use.
#[derive(Clone)]
pub struct Board {
    pub pieces: [Piece; MAILBOX_SIZE],
    pub side: Color,
    pub hash: u64,
    pub ply: u16,
    pub half_moves: u16,
    pub history: Vec<UndoInfo>,
    pub zobrist: Arc<ZobristKeys>,
}

/// The mathematical content of a board.
#[verifier::ext_equal]
pub struct BoardView {
    pub pieces: Seq<Piece>,
    pub side: Color,
    pub hash: u64,
    pub ply: u16,
    pub half_moves: u16,
    pub history: Seq<UndoInfo>,
    pub keys: Seq<u64>,
    pub side_key: u64,
}

impl View for Board {
    type V = BoardView;

    open spec fn view(&self) -> BoardView {
        BoardView {
            pieces: self.pieces@,
            side: self.side,
            hash: self.hash,
            ply: self.ply,
            half_moves: self.half_moves,
            history: self.history@,
            keys: self.zobrist.pieces@,
            side_key: self.zobrist.side,
        }
    }
}

/// u16 increment that wraps at the top.
pub open spec fn inc16(x: u16) -> u16 {
    if x == u16::MAX { 0 } else { (x + 1) as u16 }
}

/// u16 decrement that wraps at the bottom.
pub open spec fn dec16(x: u16) -> u16 {
    if x == 0 { u16::MAX } else { (x - 1) as u16 }
}

/// The pawn a promoted piece came from; other pieces are left as they are.
pub open spec fn demotion(p: Piece) -> Piece {
    match p {
        Piece::WAdKing => Piece::WPawnPawn,
        Piece::WWarengine => Piece::WPawnWarengine,
        Piece::WCamel => Piece::WPawnCamel,
        Piece::WElephant => Piece::WPawnElephant,
        Piece::WMinister => Piece::WPawnMinister,
        Piece::WPrince => Piece::WPawnKing,
        Piece::WAdvisor => Piece::WPawnAdvisor,
        Piece::WGiraffe => Piece::WPawnGiraffe,
        Piece::WCatapult => Piece::WPawnCatapult,
        Piece::WKnight => Piece::WPawnKnight,
        Piece::WRook => Piece::WPawnRook,
        Piece::BAdKing => Piece::BPawnPawn,
        Piece::BWarengine => Piece::BPawnWarengine,
        Piece::BCamel => Piece::BPawnCamel,
        Piece::BElephant => Piece::BPawnElephant,
        Piece::BMinister => Piece::BPawnMinister,
        Piece::BPrince => Piece::BPawnKing,
        Piece::BAdvisor => Piece::BPawnAdvisor,
        Piece::BGiraffe => Piece::BPawnGiraffe,
        Piece::BCatapult => Piece::BPawnCatapult,
        Piece::BKnight => Piece::BPawnKnight,
        Piece::BRook => Piece::BPawnRook,
        _ => p,
    }
}

/// Demoting the promotion of a pawn gives the pawn back.
pub proof fn lemma_demote_promotion(p: Piece)
    ensures
        p.pawn() ==> demotion(p.promotion()) == p,
{
}

impl BoardView {
    /// The board has a full key table.
    pub open spec fn wf(self) -> bool {
        &&& self.pieces.len() == MAILBOX_SIZE
        &&& self.keys.len() == NUM_PIECE_KEYS
    }

    /// Zobrist key of piece `p` on square `s`.
    pub open spec fn zkey(self, s: int, p: Piece) -> u64 {
        self.keys[s * 47 + p.code()]
    }

    /// The board after `mv` is played: the piece on `from` (or the piece it
    /// promotes to) goes to `to`, the side flips, the ply counter advances, the
    /// fifty-move counter resets on captures and pawn moves, the hash is updated
    /// incrementally and an undo record is pushed.
    pub open spec fn make(self, mv: Move) -> BoardView {
        let from = spec_mv_from(mv);
        let to = spec_mv_to(mv);
        let piece = self.pieces[from];
        let captured = self.pieces[to];
        let final_piece = if spec_mv_is_promotion(mv) { spec_mv_promoted_to(mv) } else { piece };
        let h1 = self.hash ^ self.zkey(from, piece);
        let h2 = if captured != Piece::Empty { h1 ^ self.zkey(to, captured) } else { h1 };
        BoardView {
            pieces: self.pieces.update(from, Piece::Empty).update(to, final_piece),
            side: self.side.other(),
            hash: h2 ^ self.zkey(to, final_piece) ^ self.side_key,
            ply: inc16(self.ply),
            half_moves: if captured != Piece::Empty || piece.pawn() {
                0
            } else {
                inc16(self.half_moves)
            },
            history: self.history.push(
                UndoInfo { mv, captured, hash: self.hash, half_moves: self.half_moves },
            ),
            keys: self.keys,
            side_key: self.side_key,
        }
    }

    /// The board after the last move is taken back: the piece on `to` (demoted
    /// if the move promoted) returns to `from`, the captured piece reappears on
    /// `to`, and hash, fifty-move counter, side and ply are restored.
    pub open spec fn unmake(self) -> BoardView {
        let undo = self.history.last();
        let from = spec_mv_from(undo.mv);
        let to = spec_mv_to(undo.mv);
        let on_to = self.pieces[to];
        let original = if spec_mv_is_promotion(undo.mv) { demotion(on_to) } else { on_to };
        BoardView {
            pieces: self.pieces.update(to, Piece::Empty).update(from, original).update(
                to,
                undo.captured,
            ),
            side: self.side.other(),
            hash: undo.hash,
            ply: dec16(self.ply),
            half_moves: undo.half_moves,
            history: self.history.drop_last(),
            keys: self.keys,
            side_key: self.side_key,
        }
    }

    /// A move may be taken back exactly: if it promotes, the promoted piece
    /// demotes to the piece standing on its origin.
    pub open spec fn reversible(self, mv: Move) -> bool {
        spec_mv_is_promotion(mv) ==> demotion(spec_mv_promoted_to(mv)) == self.pieces[spec_mv_from(
            mv,
        )]
    }
}

/// Taking back a move restores the board exactly, for every move that
/// does not promote or that promotes a piece its origin square demotes to.
pub proof fn lemma_unmake_make(b: BoardView, mv: Move)
    requires
        b.wf(),
        b.reversible(mv),
    ensures
        b.make(mv).unmake() == b,
{
    let a = b.make(mv);
    let c = a.unmake();
    assert(a.history.last().mv == mv);
    assert(a.history.drop_last() =~= b.history);
    let from = spec_mv_from(mv);
    let to = spec_mv_to(mv);
    assert(c.pieces =~= b.pieces) by {
        assert forall|i: int| 0 <= i < b.pieces.len() implies c.pieces[i] == b.pieces[i] by {
            if i == to {
            } else if i == from {
            } else {
            }
        }
    }
    assert(inc16(b.ply) != 0 || b.ply == u16::MAX);
    assert(dec16(inc16(b.ply)) == b.ply);
    b.side.lemma_other_other();
}


// ─── Full Zobrist hash ───────────────────────────────────────────

/// The key a square contributes to the hash: its piece's key, nothing when empty.
pub open spec fn square_key(keys: Seq<u64>, s: int, p: Piece) -> u64 {
    if p == Piece::Empty { 0 } else { keys[s * 47 + p.code()] }
}

/// Xor of the keys of the pieces on the first `n` squares.
pub open spec fn pieces_hash(pieces: Seq<Piece>, keys: Seq<u64>, n: int) -> u64
    decreases n,
{
    if n <= 0 {
        0
    } else {
        pieces_hash(pieces, keys, n - 1) ^ square_key(keys, n - 1, pieces[n - 1])
    }
}

/// The hash of a position computed from scratch: all its pieces' keys, and
/// the side key when Black is to move.
pub open spec fn full_hash(b: BoardView) -> u64 {
    let h = pieces_hash(b.pieces, b.keys, MAILBOX_SIZE as int);
    if b.side == Color::Black { h ^ b.side_key } else { h }
}

pub proof fn lemma_xor_zero(a: u64)
    ensures
        a ^ 0 == a,
{
    assert(a ^ 0 == a) by (bit_vector);
}

proof fn lemma_xor_last(a: u64, x: u64, y: u64)
    ensures
        ((a ^ x) ^ x) ^ y == a ^ y,
{
    assert(((a ^ x) ^ x) ^ y == a ^ y) by (bit_vector);
}

proof fn lemma_xor_swap(a: u64, x: u64, y: u64, z: u64)
    ensures
        ((a ^ x) ^ y) ^ z == ((a ^ z) ^ x) ^ y,
{
    assert(((a ^ x) ^ y) ^ z == ((a ^ z) ^ x) ^ y) by (bit_vector);
}

proof fn lemma_xor_side(h: u64, s: u64, a: u64, b: u64, c: u64)
    ensures
        ((((h ^ s) ^ a) ^ b) ^ c) ^ s == ((h ^ a) ^ b) ^ c,
        (((h ^ s) ^ a) ^ c) ^ s == (h ^ a) ^ c,
{
    assert(((((h ^ s) ^ a) ^ b) ^ c) ^ s == ((h ^ a) ^ b) ^ c) by (bit_vector);
    assert((((h ^ s) ^ a) ^ c) ^ s == (h ^ a) ^ c) by (bit_vector);
}

proof fn lemma_hash_prefix(pieces: Seq<Piece>, keys: Seq<u64>, n: int, i: int, p: Piece)
    requires
        n <= i < pieces.len(),
    ensures
        pieces_hash(pieces.update(i, p), keys, n) == pieces_hash(pieces, keys, n),
    decreases n,
{
    if n > 0 {
        lemma_hash_prefix(pieces, keys, n - 1, i, p);
        assert(pieces.update(i, p)[n - 1] == pieces[n - 1]);
    }
}

/// Changing one square changes the hash by the old and the new key of that square.
pub proof fn lemma_hash_update(pieces: Seq<Piece>, keys: Seq<u64>, n: int, i: int, p: Piece)
    requires
        0 <= i < n <= pieces.len(),
    ensures
        pieces_hash(pieces.update(i, p), keys, n) == (pieces_hash(pieces, keys, n) ^ square_key(
            keys,
            i,
            pieces[i],
        )) ^ square_key(keys, i, p),
    decreases n,
{
    let u = pieces.update(i, p);
    if i == n - 1 {
        lemma_hash_prefix(pieces, keys, n - 1, i, p);
        lemma_xor_last(pieces_hash(pieces, keys, n - 1), square_key(keys, i, pieces[i]), square_key(keys, i, p));
    } else {
        lemma_hash_update(pieces, keys, n - 1, i, p);
        assert(u[n - 1] == pieces[n - 1]);
        lemma_xor_swap(
            pieces_hash(pieces, keys, n - 1),
            square_key(keys, i, pieces[i]),
            square_key(keys, i, p),
            square_key(keys, n - 1, pieces[n - 1]),
        );
    }
}

/// The incremental hash of `make` agrees with the hash computed from scratch:
/// when the hash of a position is its full hash, so is the hash after any move
/// of a piece to another square that leaves a piece there (every legal move).
pub proof fn lemma_make_keeps_full_hash(b: BoardView, mv: Move)
    requires
        b.wf(),
        b.hash == full_hash(b),
        spec_mv_from(mv) != spec_mv_to(mv),
        b.pieces[spec_mv_from(mv)] != Piece::Empty,
        spec_mv_is_promotion(mv) ==> spec_mv_promoted_to(mv) != Piece::Empty,
    ensures
        b.make(mv).hash == full_hash(b.make(mv)),
{
    let from = spec_mv_from(mv);
    let to = spec_mv_to(mv);
    let piece = b.pieces[from];
    let captured = b.pieces[to];
    let final_piece = if spec_mv_is_promotion(mv) { spec_mv_promoted_to(mv) } else { piece };
    let n = MAILBOX_SIZE as int;
    let h = pieces_hash(b.pieces, b.keys, n);
    let p1 = b.pieces.update(from, Piece::Empty);
    let p2 = p1.update(to, final_piece);
    lemma_hash_update(b.pieces, b.keys, n, from, Piece::Empty);
    lemma_hash_update(p1, b.keys, n, to, final_piece);
    assert(p1[to] == captured);
    let kf = b.zkey(from, piece);
    let kt = b.zkey(to, final_piece);
    let kc = b.zkey(to, captured);
    lemma_xor_zero(h ^ kf);
    assert(pieces_hash(p1, b.keys, n) == h ^ kf);
    let a = b.make(mv);
    assert(a.pieces == p2);
    if captured == Piece::Empty {
        lemma_xor_zero(h ^ kf);
        assert(pieces_hash(p2, b.keys, n) == (h ^ kf) ^ kt);
        if b.side == Color::Black {
            lemma_xor_side(h, b.side_key, kf, 0, kt);
        }
    } else {
        assert(pieces_hash(p2, b.keys, n) == ((h ^ kf) ^ kc) ^ kt);
        if b.side == Color::Black {
            lemma_xor_side(h, b.side_key, kf, kc, kt);
        }
    }
}

/// Scan of the 110 ordinary squares for the last one (in scan order) holding `p`.
pub open spec fn last_in_scan(pieces: Seq<Piece>, p: Piece, n: int) -> Option<usize>
    decreases n,
{
    if n <= 0 {
        None
    } else if pieces[scan_square(n - 1)] == p {
        Some(scan_square(n - 1) as usize)
    } else {
        last_in_scan(pieces, p, n - 1)
    }
}

/// Number of squares among the first `n` of the mailbox holding one of three pieces.
pub open spec fn count_of(pieces: Seq<Piece>, a: Piece, b: Piece, c: Piece, n: int) -> int
    decreases n,
{
    if n <= 0 {
        0
    } else {
        count_of(pieces, a, b, c, n - 1) + (if pieces[n - 1] == a || pieces[n - 1] == b
            || pieces[n - 1] == c {
            1int
        } else {
            0int
        })
    }
}

/// King, Prince and Adventitious King of a side.
pub open spec fn royals(color: Color) -> (Piece, Piece, Piece) {
    match color {
        Color::White => (Piece::WKing, Piece::WPrince, Piece::WAdKing),
        Color::Black => (Piece::BKing, Piece::BPrince, Piece::BAdKing),
    }
}

impl BoardView {
    /// The royal square of a side: the King if there is one, else the Prince,
    /// else the Adventitious King; for each, the last square in scan order.
    pub open spec fn king_square(self, color: Color) -> Option<usize> {
        let (k, p, a) = royals(color);
        match last_in_scan(self.pieces, k, 110) {
            Some(s) => Some(s),
            None => match last_in_scan(self.pieces, p, 110) {
                Some(s) => Some(s),
                None => last_in_scan(self.pieces, a, 110),
            },
        }
    }

    /// Number of royal pieces of a side anywhere in the mailbox.
    pub open spec fn royals_on_board(self, color: Color) -> int {
        let (k, p, a) = royals(color);
        count_of(self.pieces, k, p, a, 270)
    }
}

/// A found royal square is an ordinary square holding that royal piece.
pub proof fn lemma_last_in_scan(pieces: Seq<Piece>, p: Piece, n: int)
    requires
        0 <= n <= 110,
        pieces.len() == 270,
    ensures
        last_in_scan(pieces, p, n) matches Some(s) ==> main_square(s as int) && pieces[s as int]
            == p && s < 270,
    decreases n,
{
    if n > 0 {
        lemma_scan_square(n - 1);
        lemma_last_in_scan(pieces, p, n - 1);
    }
}

/// The king square, when there is one, holds a royal piece of that side.
pub proof fn lemma_king_square(b: BoardView, color: Color)
    requires
        b.wf(),
    ensures
        b.king_square(color) matches Some(s) ==> main_square(s as int) && s < 270 && ({
            let (k, p, a) = royals(color);
            b.pieces[s as int] == k || b.pieces[s as int] == p || b.pieces[s as int] == a
        }),
{
    let (k, p, a) = royals(color);
    lemma_last_in_scan(b.pieces, k, 110);
    lemma_last_in_scan(b.pieces, p, 110);
    lemma_last_in_scan(b.pieces, a, 110);
}

impl Board {
    /// An empty board, White to move, with the standard Zobrist keys.
    pub fn new() -> (b: Self)
        ensures
            b@.wf(),
            b.zobrist.standard(),
            forall|i: int| 0 <= i < MAILBOX_SIZE ==> #[trigger] b@.pieces[i] == Piece::Empty,
            b.side == Color::White,
            b.hash == 0,
            b.ply == 0,
            b.half_moves == 0,
            b.history@.len() == 0,
    {
        Board {
            pieces: [Piece::Empty; 270],
            side: Color::White,
            hash: 0,
            ply: 0,
            half_moves: 0,
            history: Vec::new(),
            zobrist: Arc::new(ZobristKeys::new()),
        }
    }

    /// Zobrist key of piece `p` on square `s`.
    fn zobrist_piece(&self, s: usize, p: Piece) -> (k: u64)
        requires
            self@.wf(),
            s < MAILBOX_SIZE,
        ensures
            k == self@.zkey(s as int, p),
    {
        proof {
            p.lemma_code();
        }
        self.zobrist.pieces[s * 47 + p.to_u8() as usize]
    }

    /// Zobrist key of the side to move.
    fn zobrist_side(&self) -> (k: u64)
        ensures
            k == self@.side_key,
    {
        self.zobrist.side
    }

    /// Plays a move (no legality check).
    pub fn make_move(&mut self, mv: Move)
        requires
            old(self)@.wf(),
        ensures
            final(self)@ == old(self)@.make(mv),
            final(self).zobrist == old(self).zobrist,
    {
        let from = mv_from(mv);
        let to = mv_to(mv);
        let piece = self.pieces[from];
        let captured = self.pieces[to];
        let is_prom = mv_is_promotion(mv);

        self.history.push(UndoInfo { mv, captured, hash: self.hash, half_moves: self.half_moves });

        self.hash = self.hash ^ self.zobrist_piece(from, piece);
        self.pieces[from] = Piece::Empty;

        if captured != Piece::Empty {
            self.hash = self.hash ^ self.zobrist_piece(to, captured);
            self.half_moves = 0;
        } else if piece.is_pawn() {
            self.half_moves = 0;
        } else {
            self.half_moves = if self.half_moves == u16::MAX { 0 } else { self.half_moves + 1 };
        }

        let final_piece = if is_prom { mv_promoted_to(mv) } else { piece };
        self.pieces[to] = final_piece;
        self.hash = self.hash ^ self.zobrist_piece(to, final_piece);

        self.hash = self.hash ^ self.zobrist_side();
        self.side = self.side.flip();
        self.ply = if self.ply == u16::MAX { 0 } else { self.ply + 1 };
    }

    /// Takes back the last move played.
    pub fn unmake_move(&mut self)
        requires
            old(self)@.wf(),
            old(self)@.history.len() > 0,
        ensures
            final(self)@ == old(self)@.unmake(),
            final(self).zobrist == old(self).zobrist,
    {
        let undo = self.history.pop().unwrap();
        let mv = undo.mv;
        let from = mv_from(mv);
        let to = mv_to(mv);
        let is_prom = mv_is_promotion(mv);

        self.side = self.side.flip();
        self.ply = if self.ply == 0 { u16::MAX } else { self.ply - 1 };
        self.hash = undo.hash;
        self.half_moves = undo.half_moves;

        let piece_on_to = self.pieces[to];
        self.pieces[to] = Piece::Empty;

        let original_piece = if is_prom { demote_piece(piece_on_to) } else { piece_on_to };
        self.pieces[from] = original_piece;

        self.pieces[to] = undo.captured;
    }

    /// The piece on a square.
    pub fn piece_at(&self, s: usize) -> (p: Piece)
        requires
            s < MAILBOX_SIZE,
        ensures
            p == self@.pieces[s as int],
    {
        self.pieces[s]
    }

    /// Royal square of a side (King, else Prince, else Adventitious King).
    pub fn king_sq(&self, color: Color) -> (r: Option<usize>)
        ensures
            r == self@.king_square(color),
    {
        let (king, prince, adking) = match color {
            Color::White => (Piece::WKing, Piece::WPrince, Piece::WAdKing),
            Color::Black => (Piece::BKing, Piece::BPrince, Piece::BAdKing),
        };
        let mut king_s: Option<usize> = None;
        let mut prince_s: Option<usize> = None;
        let mut adking_s: Option<usize> = None;
        let mut r: i32 = 1;
        while r <= 10
            invariant
                1 <= r <= 11,
                (king, prince, adking) == royals(color),
                king_s == last_in_scan(self@.pieces, king, (r - 1) * 11),
                prince_s == last_in_scan(self@.pieces, prince, (r - 1) * 11),
                adking_s == last_in_scan(self@.pieces, adking, (r - 1) * 11),
            decreases 11 - r,
        {
            let mut f: i32 = 1;
            while f <= 11
                invariant
                    1 <= r <= 10,
                    1 <= f <= 12,
                    (king, prince, adking) == royals(color),
                    king_s == last_in_scan(self@.pieces, king, (r - 1) * 11 + f - 1),
                    prince_s == last_in_scan(self@.pieces, prince, (r - 1) * 11 + f - 1),
                    adking_s == last_in_scan(self@.pieces, adking, (r - 1) * 11 + f - 1),
                decreases 12 - f,
            {
                proof {
                    lemma_scan_index(f as int, r as int);
                    lemma_sq_coords(f as int, r as int);
                }
                let s = sq(f, r);
                let p = self.pieces[s];
                if p == king {
                    king_s = Some(s);
                } else if p == prince {
                    prince_s = Some(s);
                } else if p == adking {
                    adking_s = Some(s);
                }
                f += 1;
            }
            r += 1;
        }
        match king_s {
            Some(s) => Some(s),
            None => match prince_s {
                Some(s) => Some(s),
                None => adking_s,
            },
        }
    }

    /// Number of royal pieces (King, Prince, Adventitious King) of a side.
    pub fn royal_count(&self, color: Color) -> (n: u8)
        requires
            self@.royals_on_board(color) <= 255,
        ensures
            n == self@.royals_on_board(color),
    {
        let (king, prince, adking) = match color {
            Color::White => (Piece::WKing, Piece::WPrince, Piece::WAdKing),
            Color::Black => (Piece::BKing, Piece::BPrince, Piece::BAdKing),
        };
        let mut count: u8 = 0;
        let mut i: usize = 0;
        while i < MAILBOX_SIZE
            invariant
                i <= MAILBOX_SIZE,
                (king, prince, adking) == royals(color),
                count == count_of(self@.pieces, king, prince, adking, i as int),
                count_of(self@.pieces, king, prince, adking, 270) <= 255,
            decreases MAILBOX_SIZE - i,
        {
            proof {
                lemma_count_of_mono(self@.pieces, king, prince, adking, i as int + 1, 270);
            }
            let p = self.pieces[i];
            if p == king || p == prince || p == adking {
                count += 1;
            }
            i += 1;
        }
        count
    }

    /// Is `s` the White citadel, sq(6, 0)?
    pub fn is_white_citadel(s: usize) -> (b: bool)
        ensures
            b == (s == 52),
    {
        proof {
            lemma_sq_coords(6, 0);
        }
        s == sq(6, 0)
    }

    /// Is `s` the Black citadel, sq(6, 11)?
    pub fn is_black_citadel(s: usize) -> (b: bool)
        ensures
            b == (s == 217),
    {
        s == sq(6, 11)
    }

    /// Is `s` one of the two citadels?
    pub fn is_citadel(s: usize) -> (b: bool)
        ensures
            b == (s == 52 || s == 217),
    {
        Self::is_white_citadel(s) || Self::is_black_citadel(s)
    }
}

/// Counting over a longer prefix gives at least as much.
pub proof fn lemma_count_of_mono(pieces: Seq<Piece>, a: Piece, b: Piece, c: Piece, m: int, n: int)
    requires
        0 <= m <= n,
    ensures
        count_of(pieces, a, b, c, m) <= count_of(pieces, a, b, c, n),
    decreases n - m,
{
    if m < n {
        lemma_count_of_mono(pieces, a, b, c, m, n - 1);
    }
}

/// Zobrist key of the side to move, as used by null-move pruning.
pub fn zobrist_side_key(board: &Board) -> (k: u64)
    ensures
        k == board@.side_key,
{
    board.zobrist.side
}

/// The pawn a promoted piece came from.
fn demote_piece(p: Piece) -> (r: Piece)
    ensures
        r == demotion(p),
{
    match p {
        Piece::WAdKing => Piece::WPawnPawn,
        Piece::WWarengine => Piece::WPawnWarengine,
        Piece::WCamel => Piece::WPawnCamel,
        Piece::WElephant => Piece::WPawnElephant,
        Piece::WMinister => Piece::WPawnMinister,
        Piece::WPrince => Piece::WPawnKing,
        Piece::WAdvisor => Piece::WPawnAdvisor,
        Piece::WGiraffe => Piece::WPawnGiraffe,
        Piece::WCatapult => Piece::WPawnCatapult,
        Piece::WKnight => Piece::WPawnKnight,
        Piece::WRook => Piece::WPawnRook,
        Piece::BAdKing => Piece::BPawnPawn,
        Piece::BWarengine => Piece::BPawnWarengine,
        Piece::BCamel => Piece::BPawnCamel,
        Piece::BElephant => Piece::BPawnElephant,
        Piece::BMinister => Piece::BPawnMinister,
        Piece::BPrince => Piece::BPawnKing,
        Piece::BAdvisor => Piece::BPawnAdvisor,
        Piece::BGiraffe => Piece::BPawnGiraffe,
        Piece::BCatapult => Piece::BPawnCatapult,
        Piece::BKnight => Piece::BPawnKnight,
        Piece::BRook => Piece::BPawnRook,
        _ => p,
    }
}


// ─── FEN ────────────────────────────────────────────────────────

/// Unicode White_Space characters, the separators of `str::split_whitespace`.
pub open spec fn is_ws(c: char) -> bool {
    let v = c as u32;
    (9 <= v <= 13) || v == 32 || v == 0x85 || v == 0xA0 || v == 0x1680 || (0x2000 <= v
        <= 0x200A) || v == 0x2028 || v == 0x2029 || v == 0x202F || v == 0x205F || v == 0x3000
}

/// First index at or after `i` that is not whitespace (or the length).
pub open spec fn skip_ws(s: Seq<char>, i: int) -> int
    decreases s.len() - i,
{
    if i < 0 || i >= s.len() || !is_ws(s[i]) {
        i
    } else {
        skip_ws(s, i + 1)
    }
}

/// First index at or after `i` that is whitespace (or the length).
pub open spec fn token_end(s: Seq<char>, i: int) -> int
    decreases s.len() - i,
{
    if i < 0 || i >= s.len() || is_ws(s[i]) {
        i
    } else {
        token_end(s, i + 1)
    }
}

pub open spec fn is_digit(c: char) -> bool {
    48 <= (c as u32) <= 57
}

pub open spec fn digit_value(c: char) -> int {
    (c as u32) - 48
}

/// The piece a FEN letter stands for (`Empty` for any other character).
pub open spec fn fen_piece(c: char) -> Piece {
    match c {
        'P' => Piece::WPawnPawn,
        'X' => Piece::WPawnWarengine,
        'C' => Piece::WPawnCamel,
        'B' => Piece::WPawnElephant,
        'Y' => Piece::WPawnMinister,
        'Q' => Piece::WPawnKing,
        'E' => Piece::WPawnAdvisor,
        'H' => Piece::WPawnGiraffe,
        'T' => Piece::WPawnCatapult,
        'N' => Piece::WPawnKnight,
        'R' => Piece::WPawnRook,
        'K' => Piece::WRook,
        'A' => Piece::WKnight,
        'M' => Piece::WCatapult,
        'Z' => Piece::WGiraffe,
        'G' => Piece::WMinister,
        'S' => Piece::WKing,
        'V' => Piece::WAdvisor,
        'F' => Piece::WElephant,
        'D' => Piece::WCamel,
        'I' => Piece::WWarengine,
        'J' => Piece::WPrince,
        'L' => Piece::WAdKing,
        'p' => Piece::BPawnPawn,
        'x' => Piece::BPawnWarengine,
        'c' => Piece::BPawnCamel,
        'b' => Piece::BPawnElephant,
        'y' => Piece::BPawnMinister,
        'q' => Piece::BPawnKing,
        'e' => Piece::BPawnAdvisor,
        'h' => Piece::BPawnGiraffe,
        't' => Piece::BPawnCatapult,
        'n' => Piece::BPawnKnight,
        'r' => Piece::BPawnRook,
        'k' => Piece::BRook,
        'a' => Piece::BKnight,
        'm' => Piece::BCatapult,
        'z' => Piece::BGiraffe,
        'g' => Piece::BMinister,
        's' => Piece::BKing,
        'v' => Piece::BAdvisor,
        'f' => Piece::BElephant,
        'd' => Piece::BCamel,
        'i' => Piece::BWarengine,
        'j' => Piece::BPrince,
        'l' => Piece::BAdKing,
        _ => Piece::Empty,
    }
}

/// The FEN letter of a piece ('.' for `Empty`).
pub open spec fn fen_char(p: Piece) -> char {
    match p {
        Piece::WPawnPawn => 'P',
        Piece::WPawnWarengine => 'X',
        Piece::WPawnCamel => 'C',
        Piece::WPawnElephant => 'B',
        Piece::WPawnMinister => 'Y',
        Piece::WPawnKing => 'Q',
        Piece::WPawnAdvisor => 'E',
        Piece::WPawnGiraffe => 'H',
        Piece::WPawnCatapult => 'T',
        Piece::WPawnKnight => 'N',
        Piece::WPawnRook => 'R',
        Piece::WRook => 'K',
        Piece::WKnight => 'A',
        Piece::WCatapult => 'M',
        Piece::WGiraffe => 'Z',
        Piece::WMinister => 'G',
        Piece::WKing => 'S',
        Piece::WAdvisor => 'V',
        Piece::WElephant => 'F',
        Piece::WCamel => 'D',
        Piece::WWarengine => 'I',
        Piece::WPrince => 'J',
        Piece::WAdKing => 'L',
        Piece::BPawnPawn => 'p',
        Piece::BPawnWarengine => 'x',
        Piece::BPawnCamel => 'c',
        Piece::BPawnElephant => 'b',
        Piece::BPawnMinister => 'y',
        Piece::BPawnKing => 'q',
        Piece::BPawnAdvisor => 'e',
        Piece::BPawnGiraffe => 'h',
        Piece::BPawnCatapult => 't',
        Piece::BPawnKnight => 'n',
        Piece::BPawnRook => 'r',
        Piece::BRook => 'k',
        Piece::BKnight => 'a',
        Piece::BCatapult => 'm',
        Piece::BGiraffe => 'z',
        Piece::BMinister => 'g',
        Piece::BKing => 's',
        Piece::BAdvisor => 'v',
        Piece::BElephant => 'f',
        Piece::BCamel => 'd',
        Piece::BWarengine => 'i',
        Piece::BPrince => 'j',
        Piece::BAdKing => 'l',
        Piece::Empty => '.',
    }
}

/// Reading the piece-placement field from index `i` on, with `ri` ranks
/// (separated by '/') read so far and the next piece going to `file` of rank
/// 10 - ri. A digit, or two digits in a row, skip that many files; a letter
/// places its piece and moves one file on; other characters move one file on;
/// once past file 11 the rest of the rank is ignored.
/// Returns the pieces, the hash with every placed piece's key xored in, and
/// whether every piece landed inside the mailbox (a piece on the 15th rank
/// field or later would not).
pub open spec fn fen_place(
    tok: Seq<char>,
    i: int,
    ri: int,
    file: int,
    pieces: Seq<Piece>,
    hash: u64,
    keys: Seq<u64>,
) -> (Seq<Piece>, u64, bool)
    decreases tok.len() - i,
{
    if i < 0 || i >= tok.len() {
        (pieces, hash, true)
    } else {
        let c = tok[i];
        if c == '/' {
            fen_place(tok, i + 1, ri + 1, 1, pieces, hash, keys)
        } else if file > 11 {
            fen_place(tok, i + 1, ri, file, pieces, hash, keys)
        } else if is_digit(c) {
            if i + 1 < tok.len() && is_digit(tok[i + 1]) {
                fen_place(
                    tok,
                    i + 2,
                    ri,
                    file + digit_value(c) * 10 + digit_value(tok[i + 1]),
                    pieces,
                    hash,
                    keys,
                )
            } else {
                fen_place(tok, i + 1, ri, file + digit_value(c), pieces, hash, keys)
            }
        } else {
            let p = fen_piece(c);
            if p == Piece::Empty {
                fen_place(tok, i + 1, ri, file + 1, pieces, hash, keys)
            } else if ri > 13 {
                (pieces, hash, false)
            } else {
                let s = spec_sq(file, 10 - ri);
                fen_place(
                    tok,
                    i + 1,
                    ri,
                    file + 1,
                    pieces.update(s, p),
                    hash ^ keys[s * 47 + p.code()],
                    keys,
                )
            }
        }
    }
}

/// The empty mailbox.
pub open spec fn empty_pieces() -> Seq<Piece> {
    Seq::new(MAILBOX_SIZE as nat, |i: int| Piece::Empty)
}

/// The first whitespace-separated field of a FEN string.
pub open spec fn fen_board_field(s: Seq<char>) -> Seq<char> {
    let a0 = skip_ws(s, 0);
    s.subrange(a0, token_end(s, a0))
}

/// The side field: Black exactly when the second field is "b".
pub open spec fn fen_black(s: Seq<char>) -> bool {
    let a0 = skip_ws(s, 0);
    let a1 = skip_ws(s, token_end(s, a0));
    a1 < s.len() && s.subrange(a1, token_end(s, a1)) == seq!['b']
}

/// The placement read from a FEN string with the standard keys.
pub open spec fn fen_position(s: Seq<char>) -> (Seq<Piece>, u64, bool) {
    fen_place(fen_board_field(s), 0, 0, 1, empty_pieces(), 0, standard_keys())
}

/// FEN strings that `from_fen` reads: there is a first field, and no piece is
/// placed on the 15th rank field or later.
pub open spec fn fen_readable(s: Seq<char>) -> bool {
    &&& skip_ws(s, 0) < s.len()
    &&& fen_position(s).2
}

/// Decimal digits of an empty-square count (one or two digits).
pub open spec fn count_digits(n: int) -> Seq<char> {
    if n > 9 {
        seq![((48 + n / 10) as u32) as char, ((48 + n % 10) as u32) as char]
    } else {
        seq![((48 + n) as u32) as char]
    }
}

/// FEN text of rank `rank` from `file` on, `empty` empty squares pending.
pub open spec fn row_fen(pieces: Seq<Piece>, rank: int, file: int, empty: int) -> Seq<char>
    decreases 12 - file,
{
    if file > 11 {
        if empty > 0 {
            count_digits(empty)
        } else {
            seq![]
        }
    } else {
        let p = pieces[spec_sq(file, rank)];
        if p == Piece::Empty {
            row_fen(pieces, rank, file + 1, empty + 1)
        } else {
            (if empty > 0 {
                count_digits(empty)
            } else {
                seq![]
            }) + seq![fen_char(p)] + row_fen(pieces, rank, file + 1, 0)
        }
    }
}

/// FEN text of ranks `rank` down to 1, each but rank 10 preceded by '/'.
pub open spec fn ranks_fen(pieces: Seq<Piece>, rank: int) -> Seq<char>
    decreases rank,
{
    if rank < 1 {
        seq![]
    } else {
        (if rank < 10 {
            seq!['/']
        } else {
            seq![]
        }) + row_fen(pieces, rank, 1, 0) + ranks_fen(pieces, rank - 1)
    }
}

/// The FEN text of a position: ten ranks from rank 10 down, a space, 'w' or 'b'.
pub open spec fn board_fen(pieces: Seq<Piece>, side: Color) -> Seq<char> {
    ranks_fen(pieces, 10) + seq![' ', if side == Color::White { 'w' } else { 'b' }]
}

/// Appends a character to a string (std's `String::push`).
#[verifier::external_body]
pub(crate) fn push_char(s: &mut String, c: char)
    ensures
        final(s)@ == old(s)@.push(c),
{
    s.push(c);
}

/// The characters of a string.
pub(crate) fn chars_of(s: &str) -> (v: Vec<char>)
    ensures
        v@ == s@,
{
    let mut v: Vec<char> = Vec::new();
    for c in it: s.chars()
        invariant
            it.seq() == s@,
            v@ == it.seq().take(it.index() as int),
    {
        v.push(c);
    }
    v
}

/// Is `c` a White_Space character?
fn char_is_ws(c: char) -> (b: bool)
    ensures
        b == is_ws(c),
{
    let v = c as u32;
    (9 <= v && v <= 13) || v == 32 || v == 0x85 || v == 0xA0 || v == 0x1680 || (0x2000 <= v && v
        <= 0x200A) || v == 0x2028 || v == 0x2029 || v == 0x202F || v == 0x205F || v == 0x3000
}

pub(crate) fn skip_ws_from(s: &Vec<char>, start: usize) -> (r: usize)
    requires
        start <= s@.len(),
    ensures
        r == skip_ws(s@, start as int),
        start <= r <= s@.len(),
{
    let mut i = start;
    while i < s.len()
        invariant
            start <= i <= s@.len(),
            skip_ws(s@, i as int) == skip_ws(s@, start as int),
        decreases s@.len() - i,
    {
        if !char_is_ws(s[i]) {
            return i;
        }
        i += 1;
    }
    i
}

pub(crate) fn token_end_from(s: &Vec<char>, start: usize) -> (r: usize)
    requires
        start <= s@.len(),
    ensures
        r == token_end(s@, start as int),
        start <= r <= s@.len(),
{
    let mut i = start;
    while i < s.len()
        invariant
            start <= i <= s@.len(),
            token_end(s@, i as int) == token_end(s@, start as int),
        decreases s@.len() - i,
    {
        if char_is_ws(s[i]) {
            return i;
        }
        i += 1;
    }
    i
}

pub(crate) fn char_is_digit(c: char) -> (b: bool)
    ensures
        b == is_digit(c),
{
    let v = c as u32;
    48 <= v && v <= 57
}

/// The character of a decimal digit.
fn digit_char(d: u32) -> (c: char)
    requires
        d <= 9,
    ensures
        c == ((48 + d) as u32) as char,
{
    match d {
        0 => '0',
        1 => '1',
        2 => '2',
        3 => '3',
        4 => '4',
        5 => '5',
        6 => '6',
        7 => '7',
        8 => '8',
        _ => '9',
    }
}

/// `b` is the position a readable FEN text describes: its placement, the side
/// field, the hash from the standard keys, fresh counters and no history.
pub open spec fn reads_fen(b: Board, s: Seq<char>) -> bool {
    &&& b@.wf()
    &&& b.zobrist.standard()
    &&& b@.pieces == fen_position(s).0
    &&& b.side == (if fen_black(s) { Color::Black } else { Color::White })
    &&& b.hash == (if fen_black(s) { fen_position(s).1 ^ standard_side_key() } else { fen_position(s).1 })
    &&& b.ply == 0
    &&& b.half_moves == 0
    &&& b@.history.len() == 0
}

impl Board {
    /// Reads a position from FEN: the first field lists ranks 10 down to 1,
    /// separated by '/', with letters for pieces and digits for runs of empty
    /// squares; the second field is "b" for Black to move, anything else (or
    /// nothing) for White.
    /// Example: "f1d1i1i1d1f/kamzgsvzmak/pxcbyqehtnr/11/11/11/11/PXCBYQEHTNR/KAMZGSVZMAK/F1D1I1I1D1F w"
    pub fn from_fen(fen: &str) -> (b: Board)
        requires
            fen_readable(fen@),
        ensures
            reads_fen(b, fen@),
    {
        match Board::try_from_fen(fen) {
            Some(b) => b,
            None => Board::new(),
        }
    }

    /// `from_fen` for any text: `None` exactly when the text is not readable
    /// (no first field, or a piece placed beyond the fourteenth rank field).
    pub fn try_from_fen(fen: &str) -> (r: Option<Board>)
        ensures
            r is Some <==> fen_readable(fen@),
            r matches Some(b) ==> reads_fen(b, fen@),
    {
        let mut b = Board::new();
        assert(b@.pieces =~= empty_pieces());
        let chars = chars_of(fen);
        let a0 = skip_ws_from(&chars, 0);
        if a0 >= chars.len() {
            return None;
        }
        let e0 = token_end_from(&chars, a0);
        let ghost tok = chars@.subrange(a0 as int, e0 as int);
        let ghost keys = b@.keys;

        let mut i = a0;
        let mut ri: usize = 0;
        let mut file: i32 = 1;
        while i < e0
            invariant
                a0 <= i <= e0 + 1,
                e0 <= chars@.len(),
                chars@ == fen@,
                a0 == skip_ws(chars@, 0),
                e0 == token_end(chars@, a0 as int),
                tok == chars@.subrange(a0 as int, e0 as int),
                keys == standard_keys(),
                b@.wf(),
                b@.keys == keys,
                b.zobrist.standard(),
                b.side == Color::White,
                b.ply == 0,
                b.half_moves == 0,
                b@.history.len() == 0,
                1 <= file <= 111,
                ri <= i - a0,
                fen_place(tok, (i - a0) as int, ri as int, file as int, b@.pieces, b.hash, keys)
                    == fen_place(tok, 0, 0, 1, empty_pieces(), 0, keys),
            decreases e0 - i,
        {
            let ch = chars[i];
            assert(tok[i - a0] == ch);
            if ch == '/' {
                ri += 1;
                file = 1;
                i += 1;
            } else if file > 11 {
                i += 1;
            } else if char_is_digit(ch) {
                let mut empty = (ch as u32 - 48) as i32;
                if i + 1 < e0 && char_is_digit(chars[i + 1]) {
                    assert(tok[i + 1 - a0] == chars[i + 1]);
                    i += 1;
                    empty = empty * 10 + (chars[i] as u32 - 48) as i32;
                }
                file += empty;
                i += 1;
            } else {
                let piece = fen_char_to_piece(ch);
                if piece != Piece::Empty && ri > 13 {
                    proof {
                        assert(fen_board_field(fen@) =~= tok);
                        assert(!fen_place(tok, (i - a0) as int, ri as int, file as int, b@.pieces, b.hash, keys).2);
                    }
                    return None;
                }
                if piece != Piece::Empty {
                    let rank = 10 - ri as i32;
                    proof {
                        lemma_sq_coords(file as int, rank as int);
                    }
                    let s = sq(file, rank);
                    b.pieces[s] = piece;
                    b.hash = b.hash ^ b.zobrist_piece(s, piece);
                }
                file += 1;
                i += 1;
            }
        }
        let a1 = skip_ws_from(&chars, e0);
        let e1 = token_end_from(&chars, a1);
        if a1 < e1 && e1 - a1 == 1 && chars[a1] == 'b' {
            assert(chars@.subrange(a1 as int, e1 as int) =~= seq!['b']);
            b.side = Color::Black;
            b.hash = b.hash ^ b.zobrist_side();
        } else {
            assert(a1 < chars@.len() ==> chars@.subrange(a1 as int, e1 as int) != seq!['b'] || false) by {
                if a1 < chars@.len() && chars@.subrange(a1 as int, e1 as int) == seq!['b'] {
                    assert(chars@.subrange(a1 as int, e1 as int).len() == 1);
                    assert(chars@.subrange(a1 as int, e1 as int)[0] == chars@[a1 as int]);
                }
            }
        }
        Some(b)
    }

    /// Writes the position as FEN (see `from_fen`); runs of empty squares are
    /// written as one number.
    pub fn to_fen(&self) -> (s: String)
        ensures
            s@ == board_fen(self@.pieces, self.side),
    {
        let mut fen = String::new();
        let mut rank: i32 = 10;
        while rank >= 1
            invariant
                0 <= rank <= 10,
                fen@ + ranks_fen(self@.pieces, rank as int) == ranks_fen(self@.pieces, 10),
            decreases rank,
        {
            let ghost row_start = fen@;
            if rank < 10 {
                push_char(&mut fen, '/');
            }
            let ghost after_sep = fen@;
            let mut empty: i32 = 0;
            let mut file: i32 = 1;
            while file <= 11
                invariant
                    1 <= rank <= 10,
                    1 <= file <= 12,
                    0 <= empty < file,
                    fen@ + row_fen(self@.pieces, rank as int, file as int, empty as int) =~= after_sep
                        + row_fen(self@.pieces, rank as int, 1, 0),
                decreases 12 - file,
            {
                proof {
                    lemma_sq_coords(file as int, rank as int);
                }
                let s = sq(file, rank);
                let p = self.pieces[s];
                if p == Piece::Empty {
                    empty += 1;
                } else {
                    let ghost before = fen@;
                    let ghost e0 = empty as int;
                    if empty > 0 {
                        push_empty_count(&mut fen, empty);
                        empty = 0;
                    }
                    push_char(&mut fen, piece_to_fen_char(p));
                    assert(fen@ + row_fen(self@.pieces, rank as int, file + 1, 0) =~= before
                        + row_fen(self@.pieces, rank as int, file as int, e0));
                }
                file += 1;
            }
            if empty > 0 {
                push_empty_count(&mut fen, empty);
            }
            assert(fen@ =~= after_sep + row_fen(self@.pieces, rank as int, 1, 0));
            assert(ranks_fen(self@.pieces, rank as int) =~= (if rank < 10 {
                seq!['/']
            } else {
                seq![]
            }) + row_fen(self@.pieces, rank as int, 1, 0) + ranks_fen(self@.pieces, rank - 1));
            rank -= 1;
        }
        push_char(&mut fen, ' ');
        push_char(&mut fen, if self.side == Color::White { 'w' } else { 'b' });
        assert(fen@ =~= board_fen(self@.pieces, self.side));
        fen
    }
}

/// The piece a FEN letter stands for.
fn fen_char_to_piece(ch: char) -> (p: Piece)
    ensures
        p == fen_piece(ch),
{
    match ch {
        'P' => Piece::WPawnPawn,
        'X' => Piece::WPawnWarengine,
        'C' => Piece::WPawnCamel,
        'B' => Piece::WPawnElephant,
        'Y' => Piece::WPawnMinister,
        'Q' => Piece::WPawnKing,
        'E' => Piece::WPawnAdvisor,
        'H' => Piece::WPawnGiraffe,
        'T' => Piece::WPawnCatapult,
        'N' => Piece::WPawnKnight,
        'R' => Piece::WPawnRook,
        'K' => Piece::WRook,
        'A' => Piece::WKnight,
        'M' => Piece::WCatapult,
        'Z' => Piece::WGiraffe,
        'G' => Piece::WMinister,
        'S' => Piece::WKing,
        'V' => Piece::WAdvisor,
        'F' => Piece::WElephant,
        'D' => Piece::WCamel,
        'I' => Piece::WWarengine,
        'J' => Piece::WPrince,
        'L' => Piece::WAdKing,
        'p' => Piece::BPawnPawn,
        'x' => Piece::BPawnWarengine,
        'c' => Piece::BPawnCamel,
        'b' => Piece::BPawnElephant,
        'y' => Piece::BPawnMinister,
        'q' => Piece::BPawnKing,
        'e' => Piece::BPawnAdvisor,
        'h' => Piece::BPawnGiraffe,
        't' => Piece::BPawnCatapult,
        'n' => Piece::BPawnKnight,
        'r' => Piece::BPawnRook,
        'k' => Piece::BRook,
        'a' => Piece::BKnight,
        'm' => Piece::BCatapult,
        'z' => Piece::BGiraffe,
        'g' => Piece::BMinister,
        's' => Piece::BKing,
        'v' => Piece::BAdvisor,
        'f' => Piece::BElephant,
        'd' => Piece::BCamel,
        'i' => Piece::BWarengine,
        'j' => Piece::BPrince,
        'l' => Piece::BAdKing,
        _ => Piece::Empty,
    }
}

/// The FEN letter of a piece.
fn piece_to_fen_char(p: Piece) -> (c: char)
    ensures
        c == fen_char(p),
{
    match p {
        Piece::WPawnPawn => 'P',
        Piece::WPawnWarengine => 'X',
        Piece::WPawnCamel => 'C',
        Piece::WPawnElephant => 'B',
        Piece::WPawnMinister => 'Y',
        Piece::WPawnKing => 'Q',
        Piece::WPawnAdvisor => 'E',
        Piece::WPawnGiraffe => 'H',
        Piece::WPawnCatapult => 'T',
        Piece::WPawnKnight => 'N',
        Piece::WPawnRook => 'R',
        Piece::WRook => 'K',
        Piece::WKnight => 'A',
        Piece::WCatapult => 'M',
        Piece::WGiraffe => 'Z',
        Piece::WMinister => 'G',
        Piece::WKing => 'S',
        Piece::WAdvisor => 'V',
        Piece::WElephant => 'F',
        Piece::WCamel => 'D',
        Piece::WWarengine => 'I',
        Piece::WPrince => 'J',
        Piece::WAdKing => 'L',
        Piece::BPawnPawn => 'p',
        Piece::BPawnWarengine => 'x',
        Piece::BPawnCamel => 'c',
        Piece::BPawnElephant => 'b',
        Piece::BPawnMinister => 'y',
        Piece::BPawnKing => 'q',
        Piece::BPawnAdvisor => 'e',
        Piece::BPawnGiraffe => 'h',
        Piece::BPawnCatapult => 't',
        Piece::BPawnKnight => 'n',
        Piece::BPawnRook => 'r',
        Piece::BRook => 'k',
        Piece::BKnight => 'a',
        Piece::BCatapult => 'm',
        Piece::BGiraffe => 'z',
        Piece::BMinister => 'g',
        Piece::BKing => 's',
        Piece::BAdvisor => 'v',
        Piece::BElephant => 'f',
        Piece::BCamel => 'd',
        Piece::BWarengine => 'i',
        Piece::BPrince => 'j',
        Piece::BAdKing => 'l',
        Piece::Empty => '.',
    }
}

/// Appends the decimal form of an empty-square count.
pub(crate) fn push_empty_count(s: &mut String, count: i32)
    requires
        0 <= count <= 99,
    ensures
        final(s)@ == old(s)@ + count_digits(count as int),
{
    if count > 9 {
        push_char(s, digit_char((count / 10) as u32));
        push_char(s, digit_char((count % 10) as u32));
    } else {
        push_char(s, digit_char(count as u32));
    }
}

/// The standard starting position.
pub const START_FEN: &'static str = "f1d1i1i1d1f/kamzgsvzmak1/pxcbyqehtnr/92/92/92/92/PXCBYQEHTNR/KAMZGSVZMAK1/F1D1I1I1D1F w";

} // verus!
