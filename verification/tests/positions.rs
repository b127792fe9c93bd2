use tamerlane_engine::board::{zobrist_side_key, Board, START_FEN};
use tamerlane_engine::movegen::{generate_captures, legal_captures, legal_moves};
use tamerlane_engine::attack::{in_check, is_attacked};
use tamerlane_engine::types::{mv_from, mv_to, sq, Color, Piece};
use tamerlane_engine::board::rank_brd;
use tamerlane_engine::{get_game_status, get_legal_moves};

const LONE_KINGS: &str = "5s5/11/11/11/11/11/11/11/11/5S5 w";
const WHITE_MATED: &str = "kk8s/11/11/11/11/11/11/11/11/S10 w";
const BLACK_MATED: &str = "s10/11/11/11/11/11/11/11/11/KK8S b";
const STALEMATE: &str = "1k8s/11/11/11/11/11/11/11/10k/S10 w";
const ROOK_CHECK: &str = "5s5/11/11/11/11/5k5/11/11/11/5S5 w";

#[test]
fn start_position_round_trip() {
    let b = Board::from_fen(START_FEN);
    assert_eq!(
        b.to_fen(),
        "f1d1i1i1d1f/kamzgsvzmak/pxcbyqehtnr/11/11/11/11/PXCBYQEHTNR/KAMZGSVZMAK/F1D1I1I1D1F w"
    );
    assert_eq!(b.side, Color::White);
    assert_eq!(b.piece_at(sq(6, 2)), Piece::WKing);
    assert_eq!(b.piece_at(sq(6, 9)), Piece::BKing);
    assert_eq!(b.piece_at(sq(1, 3)), Piece::WPawnPawn);
}

#[test]
fn written_fen_reads_back() {
    let b = Board::from_fen(START_FEN);
    let again = Board::from_fen(&b.to_fen());
    assert_eq!(again.pieces, b.pieces);
    assert_eq!(again.side, b.side);
    assert_eq!(again.hash, b.hash);
    let lone = Board::from_fen(LONE_KINGS);
    assert_eq!(lone.to_fen(), LONE_KINGS);
}

#[test]
fn black_to_move_flips_the_hash() {
    let w = Board::from_fen("5s5/11/11/11/11/11/11/11/11/5S5 w");
    let b = Board::from_fen("5s5/11/11/11/11/11/11/11/11/5S5 b");
    assert_eq!(b.side, Color::Black);
    assert_eq!(w.hash ^ zobrist_side_key(&w), b.hash);
    assert!(b.to_fen().ends_with(" b"));
}

#[test]
fn unreadable_fen_is_refused() {
    assert!(Board::try_from_fen("").is_none());
    assert!(Board::try_from_fen("   ").is_none());
    // A piece in the fifteenth rank field lies outside the mailbox.
    assert!(Board::try_from_fen("11/11/11/11/11/11/11/11/11/11/11/11/11/11/P w").is_none());
    // The fourteenth field is still inside it.
    assert!(Board::try_from_fen("11/11/11/11/11/11/11/11/11/11/11/11/11/P w").is_some());
    assert!(Board::try_from_fen(START_FEN).is_some());
}

#[test]
fn lone_king_moves_in_generation_order() {
    assert_eq!(
        get_legal_moves(LONE_KINGS),
        "6,1,5,1,6,1,7,1,6,1,5,2,6,1,6,2,6,1,7,2"
    );
}

#[test]
fn status_of_quiet_position() {
    assert_eq!(get_game_status(LONE_KINGS), "playing");
}

#[test]
fn status_of_check() {
    assert_eq!(get_game_status(ROOK_CHECK), "check");
    let b = Board::from_fen(ROOK_CHECK);
    assert!(in_check(&b));
    assert!(is_attacked(&b, sq(6, 1), Color::Black));
    assert!(!is_attacked(&b, sq(5, 1), Color::Black));
}

#[test]
fn status_of_mates_and_stalemate() {
    assert_eq!(get_game_status(WHITE_MATED), "checkmate_black");
    assert_eq!(get_game_status(BLACK_MATED), "checkmate_white");
    assert_eq!(get_game_status(STALEMATE), "stalemate");
    assert_eq!(get_legal_moves(WHITE_MATED), "");
}

#[test]
fn make_and_unmake_restore_every_start_move() {
    let mut b = Board::from_fen(START_FEN);
    let fen = b.to_fen();
    let moves = legal_moves(&mut b);
    assert!(!moves.is_empty());
    for &mv in &moves {
        let before_hash = b.hash;
        b.make_move(mv);
        assert_eq!(b.side, Color::Black);
        b.unmake_move();
        assert_eq!(b.hash, before_hash);
        assert_eq!(b.to_fen(), fen);
        assert_eq!(b.ply, 0);
        assert_eq!(b.half_moves, 0);
        assert!(b.history.is_empty());
    }
}

#[test]
fn incremental_hash_matches_a_fresh_read() {
    let mut b = Board::from_fen(START_FEN);
    let moves = legal_moves(&mut b);
    let mut checked = 0;
    for &mv in &moves {
        // FEN has no field for the citadels: skip moves into them.
        let to = mv_to(mv);
        if rank_brd(to) < 1 || rank_brd(to) > 10 {
            continue;
        }
        checked += 1;
        b.make_move(mv);
        let fresh = Board::from_fen(&b.to_fen());
        assert_eq!(fresh.hash, b.hash);
        b.unmake_move();
    }
    assert!(checked > 0);
}

#[test]
fn citadels_admit_only_the_enemy_royals() {
    // The White camel on c1 may not jump into White's own citadel f0.
    let mut b = Board::from_fen(START_FEN);
    let moves = legal_moves(&mut b);
    assert!(!moves.iter().any(|&m| mv_to(m) == sq(6, 0)));
    // A White king next to Black's citadel f11 may enter it.
    let mut b = Board::from_fen("5S5/11/11/11/11/11/11/11/11/s10 w");
    let moves = legal_moves(&mut b);
    assert!(moves.iter().any(|&m| mv_from(m) == sq(6, 10) && mv_to(m) == sq(6, 11)));
    // A Black king next to its own citadel f11 may not.
    let mut b = Board::from_fen("5s5/11/11/11/11/11/11/11/11/S10 b");
    let moves = legal_moves(&mut b);
    assert!(!moves.iter().any(|&m| mv_to(m) == sq(6, 11)));
    assert_eq!(tamerlane_engine::types::init_citadels(), (sq(6, 0), sq(6, 11)));
}

#[test]
fn giraffe_attacks_where_it_captures() {
    // Giraffe a1; a Black rook on b4 sits on its third checkpoint: not attacked.
    let b = Board::from_fen("10s/11/11/11/11/11/1k9/11/11/Z9S w");
    assert!(!is_attacked(&b, sq(2, 4), Color::White));
    assert!(!generate_captures(&b).iter().any(|&m| mv_to(m) == sq(2, 4)));
    // With b2, b3, b4 and b5 empty the rook on b6 is attacked and can be taken.
    let b = Board::from_fen("10s/11/11/11/1k9/11/11/11/11/Z9S w");
    assert!(is_attacked(&b, sq(2, 6), Color::White));
    assert!(generate_captures(&b).iter().any(|&m| mv_from(m) == sq(1, 1) && mv_to(m) == sq(2, 6)));
}

#[test]
fn royal_count_and_citadels() {
    let b = Board::from_fen(START_FEN);
    assert_eq!(b.royal_count(Color::White), 1);
    assert_eq!(b.royal_count(Color::Black), 1);
    assert_eq!(b.king_sq(Color::White), Some(sq(6, 2)));
    assert!(Board::is_citadel(sq(6, 0)) && Board::is_citadel(sq(6, 11)));
    assert!(Board::is_white_citadel(52) && !Board::is_white_citadel(217));
    assert!(!Board::is_citadel(88));
}

#[test]
fn fen_round_trip_with_a_king_in_the_citadel() {
    // The White king steps from f10 into Black's citadel f11; FEN has no field
    // for the citadel, so the king comes back off the board and all else stays.
    let mut b = Board::from_fen("5S5/11/11/11/11/11/11/11/11/s10 w");
    let moves = legal_moves(&mut b);
    let into = *moves.iter().find(|&&m| mv_to(m) == sq(6, 11)).expect("citadel move");
    b.make_move(into);
    assert_eq!(b.piece_at(sq(6, 11)), Piece::WKing);
    let text = b.to_fen();
    assert_eq!(text, "11/11/11/11/11/11/11/11/11/s10 b");
    let fresh = Board::from_fen(&text);
    assert_eq!(fresh.side, b.side);
    for rank in 1..=10 {
        for file in 1..=11 {
            assert_eq!(fresh.piece_at(sq(file, rank)), b.piece_at(sq(file, rank)));
        }
    }
    assert_eq!(fresh.piece_at(sq(6, 11)), Piece::Empty);
}

#[test]
fn legal_captures_are_legal_moves() {
    for fen in [START_FEN, ROOK_CHECK, "10s/11/11/11/1k9/11/11/11/11/Z9S w", "5s5/2P8/11/11/11/11/11/11/11/5S5 w"] {
        let mut b = Board::from_fen(fen);
        let moves = legal_moves(&mut b);
        let captures = legal_captures(&mut b);
        for m in captures.iter() {
            assert!(moves.contains(m));
        }
    }
}
