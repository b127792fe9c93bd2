use tamerlane_engine::board::Board;
use tamerlane_engine::eval::{evaluate, PhaseTable};
use tamerlane_engine::search::{move_to_string, search_best_move, time_up, GlobalSearchState};
use tamerlane_engine::server::{handle_request, request_params, DEFAULT_LEVEL, DEFAULT_MOVETIME};
use tamerlane_engine::types::{make_move, make_quiet, mv_from, mv_to, sq, Piece, MOVE_NONE};
use tamerlane_engine::tt::{TTAccess, TTFlag};
use tamerlane_engine::uci::{identity_lines, parse_command, uci_step, UciCommand};
use tamerlane_engine::{best_move_string, get_best_move};

/// One legal move only: the white king on a1 must step to a2.
const ONE_REPLY: &str = "1k8s/11/11/11/11/11/11/11/11/S10 w";

fn phase_table() -> PhaseTable {
    let mut scaled = Vec::with_capacity(2401 * 9);
    for t in 0..=2400i32 {
        let phase = 1.0 - (t as f64 / 2400.0);
        for j in 0..9i32 {
            scaled.push(((j * 5) as f64 * phase) as i32);
        }
    }
    PhaseTable { scaled }
}

fn clock() -> u64 {
    std::time::SystemTime::now()
        .duration_since(std::time::UNIX_EPOCH)
        .map(|d| d.as_millis() as u64)
        .unwrap_or(0)
}

fn lmr(depth: i32, moves_searched: i32) -> i32 {
    if depth < 3 || moves_searched < 5 {
        return 0;
    }
    let r = ((depth as f64).ln() * (moves_searched as f64).ln() / 2.25) as i32;
    r.max(1).min(depth - 1)
}

#[test]
fn phase_table_scales_centrality() {
    let p = phase_table();
    assert_eq!(p.scaled.len(), 2401 * 9);
    // No material: full bonus; 1200 of material: half of it; 2400: nothing.
    assert_eq!(p.scaled[8], 40);
    assert_eq!(p.scaled[1200 * 9 + 8], 20);
    assert_eq!(p.scaled[2400 * 9 + 8], 0);
}

#[test]
fn single_reply_is_found() {
    let mut state = GlobalSearchState::new();
    let phase = phase_table();
    let mut board = Board::from_fen(ONE_REPLY);
    let before = board.to_fen();
    let (mv, _score, depth, nodes) = search_best_move(&mut board, 200, 1, &mut state, &phase, &lmr, &clock);
    assert_eq!(mv, make_quiet(sq(1, 1), sq(1, 2)));
    assert!(depth >= 1);
    assert!(nodes >= 1);
    assert_eq!(board.to_fen(), before);
}

#[test]
fn medium_search_stops_at_depth_four() {
    let mut state = GlobalSearchState::new();
    let phase = phase_table();
    let mut board = Board::from_fen("5s5/11/11/11/11/11/11/11/11/5S5 w");
    let (mv, _score, depth, _nodes) = search_best_move(&mut board, 5000, 0, &mut state, &phase, &lmr, &clock);
    assert!(mv != MOVE_NONE);
    assert!(depth <= 4);
}

#[test]
fn no_move_when_the_time_is_already_up_or_the_game_is_drawn() {
    let mut state = GlobalSearchState::new();
    let phase = phase_table();
    // A zero time limit stops the search at its first node.
    let mut board = Board::from_fen(ONE_REPLY);
    let (mv, score, depth, _nodes) = search_best_move(&mut board, 0, 1, &mut state, &phase, &lmr, &clock);
    assert_eq!(mv, MOVE_NONE);
    assert_eq!(score, -100_000);
    assert_eq!(depth, 1);
    // The fifty-move counter at 100 scores the root as a draw before any move.
    let mut board = Board::from_fen(ONE_REPLY);
    board.half_moves = 100;
    let (mv, _score, depth, _nodes) = search_best_move(&mut board, 200, 1, &mut state, &phase, &lmr, &clock);
    assert_eq!(mv, MOVE_NONE);
    assert!(depth >= 1);
}

#[test]
fn root_result_is_stored_exact() {
    let mut state = GlobalSearchState::new();
    let phase = phase_table();
    let mut board = Board::from_fen("5s5/11/11/11/11/11/11/11/11/5S5 w");
    let (_mv, score, depth, _nodes) = search_best_move(&mut board, 5000, 0, &mut state, &phase, &lmr, &clock);
    assert_eq!(depth, 4);
    let e = state.tt.tt_probe(board.hash).expect("root entry");
    assert_eq!(e.flag, TTFlag::Exact);
    assert_eq!(e.depth, 4);
    assert_eq!(e.score, score);
}

#[test]
fn mated_side_has_no_move() {
    let mut state = GlobalSearchState::new();
    let phase = phase_table();
    let mut board = Board::from_fen("kk8s/11/11/11/11/11/11/11/11/S10 w");
    let (mv, score, _depth, _nodes) = search_best_move(&mut board, 100, 1, &mut state, &phase, &lmr, &clock);
    assert_eq!(mv, MOVE_NONE);
    assert_eq!(score, -100_000);
}

#[test]
fn best_move_answer_text() {
    let mut state = GlobalSearchState::new();
    let phase = phase_table();
    assert_eq!(get_best_move(ONE_REPLY, 200, 1, &mut state, &phase, &lmr, &clock), "1,1,1,2");
    assert_eq!(
        get_best_move("kk8s/11/11/11/11/11/11/11/11/S10 w", 100, 1, &mut state, &phase, &lmr, &clock),
        "none"
    );
}

#[test]
fn best_move_string_gives_coordinates() {
    let m = make_move(sq(3, 9), sq(3, 10), Piece::Empty, true, Piece::WCamel);
    assert_eq!(best_move_string(m), "3,9,3,10");
    assert_eq!(best_move_string(make_quiet(sq(6, 1), sq(6, 0))), "6,1,6,0");
    assert_eq!(best_move_string(MOVE_NONE), "none");
}

#[test]
fn move_text_uses_letters_and_ranks() {
    let b = Board::new();
    assert_eq!(move_to_string(make_quiet(sq(1, 2), sq(1, 3)), &b), "a2a3");
    assert_eq!(move_to_string(make_quiet(sq(11, 9), sq(11, 10)), &b), "k9k10");
    assert_eq!(move_to_string(make_quiet(sq(6, 1), sq(6, 0)), &b), "f1f0");
    assert_eq!(move_to_string(MOVE_NONE, &b), "none");
}

#[test]
fn evaluation_is_bounded_and_side_relative() {
    let phase = phase_table();
    let w = Board::from_fen("5s5/11/11/11/11/11/11/11/PPP8/5S5 w");
    let b = Board::from_fen("5s5/11/11/11/11/11/11/11/PPP8/5S5 b");
    let ew = evaluate(&w, &phase);
    let eb = evaluate(&b, &phase);
    // White is three pawns up: good for White to move, bad for Black to move.
    assert!(ew > 0);
    assert!(eb < 0);
    assert!(ew.abs() <= 900_000 && eb.abs() <= 900_000);
}

#[test]
fn evaluation_of_small_positions() {
    let phase = phase_table();
    // Symmetric kings: every term cancels but the tempo bonus.
    let w = Board::from_fen("5s5/11/11/11/11/11/11/11/11/5S5 w");
    let b = Board::from_fen("5s5/11/11/11/11/11/11/11/11/5S5 b");
    assert_eq!(evaluate(&w, &phase), 12);
    assert_eq!(evaluate(&b, &phase), 12);
    // A white pawn on a2: 100 material + 5 square bonus, -12 isolated,
    // +15 passed on rank 2; 108 for White, plus the tempo bonus.
    let w = Board::from_fen("5s5/11/11/11/11/11/11/11/P10/5S5 w");
    let b = Board::from_fen("5s5/11/11/11/11/11/11/11/P10/5S5 b");
    assert_eq!(evaluate(&w, &phase), 120);
    assert_eq!(evaluate(&b, &phase), -96);
}

#[test]
fn uci_commands_are_read() {
    assert!(matches!(parse_command("uci"), UciCommand::Uci));
    assert!(matches!(parse_command("  isready  "), UciCommand::IsReady));
    assert!(matches!(parse_command("ucinewgame"), UciCommand::NewGame));
    assert!(matches!(parse_command(""), UciCommand::Blank));
    assert!(matches!(parse_command("quit"), UciCommand::Quit));
    assert!(matches!(parse_command("position startpos"), UciCommand::PositionStart));
    assert!(matches!(parse_command("position"), UciCommand::Position));
    match parse_command("position fen 5s5/11/11/11/11/11/11/11/11/5S5   w") {
        UciCommand::PositionFen(f) => assert_eq!(f, "5s5/11/11/11/11/11/11/11/11/5S5 w"),
        _ => panic!("expected a FEN position"),
    }
    match parse_command("hello world") {
        UciCommand::Unknown(w) => assert_eq!(w, "hello"),
        _ => panic!("expected an unknown command"),
    }
}

#[test]
fn go_parameters_follow_str_parse() {
    match parse_command("go movetime 500 level 0") {
        UciCommand::Go { movetime, difficulty } => {
            assert_eq!(movetime, 500);
            assert_eq!(difficulty, 0);
        }
        _ => panic!("expected go"),
    }
    match parse_command("go") {
        UciCommand::Go { movetime, difficulty } => {
            assert_eq!(movetime, 2000);
            assert_eq!(difficulty, 1);
        }
        _ => panic!("expected go"),
    }
    match parse_command("go movetime abc level -3") {
        UciCommand::Go { movetime, difficulty } => {
            assert_eq!(movetime, 2000);
            assert_eq!(difficulty, -3);
        }
        _ => panic!("expected go"),
    }
    match parse_command("go movetime +7 movetime -7") {
        UciCommand::Go { movetime, .. } => assert_eq!(movetime, 2000),
        _ => panic!("expected go"),
    }
    match parse_command("go movetime 18446744073709551615 level 2147483648") {
        UciCommand::Go { movetime, difficulty } => {
            assert_eq!(movetime, u64::MAX);
            assert_eq!(difficulty, 1);
        }
        _ => panic!("expected go"),
    }
    match parse_command("go movetime 18446744073709551616 level -2147483648") {
        UciCommand::Go { movetime, difficulty } => {
            assert_eq!(movetime, 2000);
            assert_eq!(difficulty, i32::MIN);
        }
        _ => panic!("expected go"),
    }
    match parse_command("go level") {
        UciCommand::Go { difficulty, .. } => assert_eq!(difficulty, 1),
        _ => panic!("expected go"),
    }
}

#[test]
fn uci_session_answers() {
    let mut state = GlobalSearchState::new();
    let phase = phase_table();
    let mut board = Board::new();
    let id = identity_lines();
    assert_eq!(id, vec!["id name TamerlaneEngine v3.0", "id author Gokce", "uciok"]);
    let r = uci_step(&mut board, &UciCommand::IsReady, &mut state, &phase, &lmr, &clock).unwrap();
    assert_eq!(r, vec!["readyok"]);
    let r = uci_step(&mut board, &parse_command("position fen 1k8s/11/11/11/11/11/11/11/11/S10 w"), &mut state, &phase, &lmr, &clock).unwrap();
    assert!(r.is_empty());
    assert_eq!(board.to_fen(), ONE_REPLY);
    let r = uci_step(&mut board, &parse_command("go movetime 200"), &mut state, &phase, &lmr, &clock).unwrap();
    assert_eq!(r, vec!["bestmove a1a2"]);
    let r = uci_step(&mut board, &parse_command("bogus"), &mut state, &phase, &lmr, &clock).unwrap();
    assert_eq!(r, vec!["Unknown command: bogus"]);
    let r = uci_step(&mut board, &UciCommand::NewGame, &mut state, &phase, &lmr, &clock).unwrap();
    assert!(r.is_empty());
    assert_eq!(board.to_fen(), "11/11/11/11/11/11/11/11/11/11 w");
    let r = uci_step(&mut board, &parse_command("position startpos"), &mut state, &phase, &lmr, &clock).unwrap();
    assert!(r.is_empty());
    assert_eq!(
        board.to_fen(),
        "f1d1i1i1d1f/kamzgsvzmak/pxcbyqehtnr/11/11/11/11/PXCBYQEHTNR/KAMZGSVZMAK/F1D1I1I1D1F w"
    );
    let r = uci_step(&mut board, &parse_command("go movetime 300"), &mut state, &phase, &lmr, &clock).unwrap();
    assert!(r[0].starts_with("bestmove ") && r[0] != "bestmove none");
    assert!(uci_step(&mut board, &UciCommand::Quit, &mut state, &phase, &lmr, &clock).is_none());
}

#[test]
fn server_requests() {
    assert_eq!(request_params(None, None), (DEFAULT_MOVETIME, DEFAULT_LEVEL));
    assert_eq!(request_params(Some(300), Some(0)), (300, 0));
    let mut state = GlobalSearchState::new();
    let phase = phase_table();
    assert!(handle_request("ping", None, None, None, &mut state, &phase, &lmr, &clock).is_none());
    let r = handle_request("search", Some(ONE_REPLY), Some(200), Some(1), &mut state, &phase, &lmr, &clock).unwrap();
    assert_eq!(r.best_move, "a1a2");
    // No position: the empty board has no moves.
    let r = handle_request("search", None, Some(50), None, &mut state, &phase, &lmr, &clock).unwrap();
    assert_eq!(r.best_move, "none");
}

#[test]
fn time_runs_out_at_the_limit() {
    assert!(!time_up(999, 400, 600));
    assert!(time_up(1000, 400, 600));
    assert!(time_up(5000, 400, 600));
    // The clock's counter wrapped: 5 is six past u64::MAX.
    assert!(time_up(5, u64::MAX, 6));
    assert!(!time_up(5, u64::MAX, 7));
    assert!(time_up(7, 7, 0));
}

#[test]
fn mated_side_is_answered_after_one_node() {
    let phase = phase_table();
    let steady = || 5u64;
    for difficulty in [0, 1] {
        let mut state = GlobalSearchState::new();
        let mut board = Board::from_fen("kk8s/11/11/11/11/11/11/11/11/S10 w");
        let r = search_best_move(&mut board, 1000, difficulty, &mut state, &phase, &lmr, &steady);
        assert_eq!(r, (MOVE_NONE, -100_000, 1, 1));
    }
}

#[test]
fn evaluations_of_both_sides_sum_to_the_tempo_bonus() {
    let phase = phase_table();
    let start_w = tamerlane_engine::board::START_FEN;
    let w = Board::from_fen(start_w);
    let b = Board::from_fen(&start_w.replace(" w", " b"));
    assert_eq!(evaluate(&w, &phase) + evaluate(&b, &phase), 24);
    let w = Board::from_fen("5s5/11/11/3k7/11/11/2Z8/11/PPP8/5S5 w");
    let b = Board::from_fen("5s5/11/11/3k7/11/11/2Z8/11/PPP8/5S5 b");
    assert_eq!(evaluate(&w, &phase) + evaluate(&b, &phase), 24);
}

#[test]
fn mate_in_one_is_played() {
    // Black rooks b10 and c9 against the lone White king on a1: Ra9 mates.
    let phase = phase_table();
    let steady = || 5u64;
    let mut state = GlobalSearchState::new();
    let mut board = Board::from_fen("1k8s/2k8/11/11/11/11/11/11/11/S10 b");
    let (mv, score, depth, _nodes) = search_best_move(&mut board, 1000, 1, &mut state, &phase, &lmr, &steady);
    assert_eq!(mv_from(mv), sq(3, 9));
    assert_eq!(mv_to(mv), sq(1, 9));
    assert_eq!(score, 89_999);
    assert_eq!(depth, 1);
    assert_eq!(
        get_best_move("1k8s/2k8/11/11/11/11/11/11/11/S10 b", 1000, 0, &mut state, &phase, &lmr, &steady),
        "3,9,1,9"
    );
}
