use tamerlane_engine::ordering::{
    pick_best, score_capture, score_moves, see_value, CounterMoveTable, HistoryTable, Killers,
};
use tamerlane_engine::tt::{shared_store_word, SharedTT, TTAccess, TTFlag, TranspositionTable};
use tamerlane_engine::types::{make_capture, make_quiet, sq, Piece, MOVE_NONE};

#[test]
fn table_size_follows_the_entry_layout() {
    // 1 MB of 24-byte entries, rounded as the table rounds: 32768 slots.
    let t = TranspositionTable::new(1);
    assert_eq!(t.entries.len(), 32768);
    assert_eq!(t.mask, 32767);
    let small = TranspositionTable::new(0);
    assert_eq!(small.entries.len(), 1024);
}

#[test]
fn probe_finds_what_was_stored() {
    let mut t = TranspositionTable::new(0);
    let m = make_quiet(sq(1, 2), sq(1, 3));
    assert!(t.tt_probe(12345).is_none());
    t.tt_store(12345, 5, -321, TTFlag::Beta, m);
    let e = t.tt_probe(12345).expect("stored entry");
    assert_eq!(e.hash, 12345);
    assert_eq!(e.depth, 5);
    assert_eq!(e.score, -321);
    assert_eq!(e.flag, TTFlag::Beta);
    assert_eq!(e.best_move, m);
    // Same slot, other hash: not found.
    assert!(t.tt_probe(12345 + 1024).is_none());
    // A shallower store of the same hash keeps the deeper entry.
    t.tt_store(12345, 3, 7, TTFlag::Exact, MOVE_NONE);
    assert_eq!(t.tt_probe(12345).unwrap().depth, 5);
    // A deeper one replaces it.
    t.tt_store(12345, 9, 7, TTFlag::Exact, MOVE_NONE);
    assert_eq!(t.tt_probe(12345).unwrap().score, 7);
    t.tt_clear();
    assert!(t.tt_probe(12345).is_none());
}

#[test]
fn shared_table_packs_and_unpacks() {
    let mut t = SharedTT::new(0);
    let m = make_capture(sq(2, 2), sq(3, 3), Piece::BRook);
    t.tt_store(0xDEAD_BEEF, 7, -2_000_000, TTFlag::Alpha, m);
    let e = t.tt_probe(0xDEAD_BEEF).expect("stored entry");
    assert_eq!(e.depth, 7);
    assert_eq!(e.score, -2_000_000);
    assert_eq!(e.flag, TTFlag::Alpha);
    assert_eq!(e.best_move, m);
    t.tt_store(0xDEAD_BEEF, 2, 99, TTFlag::Exact, MOVE_NONE);
    assert_eq!(t.tt_probe(0xDEAD_BEEF).unwrap().score, -2_000_000);
    t.tt_clear();
    assert!(t.tt_probe(0xDEAD_BEEF).is_none());
}

#[test]
fn killers_keep_two_per_ply() {
    let mut k = Killers::new();
    let a = make_quiet(sq(1, 1), sq(1, 2));
    let b = make_quiet(sq(2, 1), sq(2, 2));
    assert_eq!(k.is_killer(3, a), None);
    k.add(3, a);
    assert_eq!(k.is_killer(3, a), Some(900_000));
    k.add(3, b);
    assert_eq!(k.is_killer(3, b), Some(900_000));
    assert_eq!(k.is_killer(3, a), Some(800_000));
    assert_eq!(k.is_killer(4, a), None);
    k.add(500, a);
    assert_eq!(k.is_killer(500, a), None);
}

#[test]
fn history_rewards_and_penalizes() {
    let mut h = HistoryTable::new();
    let from = sq(1, 2);
    let to = sq(1, 3);
    assert_eq!(h.score(from, to, true), 0);
    h.add(from, to, 4, true);
    assert_eq!(h.score(from, to, true), 16);
    assert_eq!(h.score(from, to, false), 0);
    h.penalize(from, to, 3, true);
    assert_eq!(h.score(from, to, true), 7);
    // Past 400000 the whole side's table is halved.
    h.add(from, to, 700, true);
    assert_eq!(h.score(from, to, true), (7 + 490_000) / 2);
}

#[test]
fn countermoves_remember_replies() {
    let mut c = CounterMoveTable::new();
    let reply = make_quiet(sq(4, 9), sq(4, 8));
    assert_eq!(c.probe(Piece::WKnight, sq(3, 3)), MOVE_NONE);
    c.store(Piece::WKnight, sq(3, 3), reply);
    assert_eq!(c.probe(Piece::WKnight, sq(3, 3)), reply);
    assert_eq!(c.probe(Piece::BKnight, sq(3, 3)), MOVE_NONE);
    c.store(Piece::Empty, sq(3, 3), reply);
    assert_eq!(c.probe(Piece::Empty, sq(3, 3)), MOVE_NONE);
}

#[test]
fn capture_scores_follow_mvv_lva() {
    assert_eq!(see_value(Piece::WRook), 500);
    assert_eq!(see_value(Piece::BKing), 10000);
    // Pawn takes rook: a good capture, victim 600 * 100 minus attacker 1.
    assert_eq!(score_capture(Piece::BRook, Piece::WPawnPawn), 5_000_000 + 60_000 - 1);
    // Rook takes pawn: victim 100 * 100 minus attacker 7, at the lower base.
    assert_eq!(score_capture(Piece::BPawnPawn, Piece::WRook), 1_000_000 + 10_000 - 7);
}

#[test]
fn best_pick_moves_the_highest_score_forward() {
    let mut list = vec![(1u32, 5), (2u32, 50), (3u32, 7), (4u32, 50)];
    assert_eq!(pick_best(&mut list, 0), 2);
    assert_eq!(list, vec![(2, 50), (1, 5), (3, 7), (4, 50)]);
    assert_eq!(pick_best(&mut list, 1), 4);
    assert_eq!(list, vec![(2, 50), (4, 50), (3, 7), (1, 5)]);
}

#[test]
fn ordering_puts_the_table_move_first() {
    let pieces = [Piece::Empty; 270];
    let k = Killers::new();
    let h = HistoryTable::new();
    let a = make_quiet(sq(1, 2), sq(1, 3));
    let b = make_quiet(sq(2, 2), sq(2, 3));
    let scored = score_moves(&[a, b], &pieces, b, &k, &h, 0, MOVE_NONE, true);
    assert_eq!(scored[0], (a, 0));
    assert_eq!(scored[1], (b, 10_000_000));
}

#[test]
fn shared_store_decides_on_what_it_read() {
    let m = make_quiet(sq(1, 2), sq(1, 3));
    // Another key in the slot: the new entry is written.
    let w = shared_store_word(77, 0, 5, 3, -40, TTFlag::Beta, m).expect("written");
    // The same key with that word: a shallower entry is not written, an equal
    // or deeper one is, and packs as the first did.
    assert_eq!(shared_store_word(5, w, 5, 2, 10, TTFlag::Exact, m), None);
    assert_eq!(shared_store_word(5, w, 5, 3, -40, TTFlag::Beta, m), Some(w));
    assert!(shared_store_word(5, w, 5, 4, 10, TTFlag::Exact, m).is_some());
    let mut t = SharedTT::new(0);
    t.tt_store(5, 3, -40, TTFlag::Beta, m);
    let e = t.tt_probe(5).expect("stored entry");
    assert_eq!((e.depth, e.score, e.flag, e.best_move), (3, -40, TTFlag::Beta, m));
}
