use vstd::prelude::*;
use crate::types::{Color, Move, MOVE_NONE};
use crate::board::{
    Board, BoardView, UndoInfo, START_FEN, empty_pieces, standard_keys, standard_side_key, is_ws, skip_ws, token_end, is_digit, digit_value, fen_readable, reads_fen, chars_of,
    skip_ws_from, token_end_from, char_is_digit, push_char,
};
use crate::movegen::{lemma_moves_on_board, on_board_move, spec_legal_moves};
use crate::fen_view;
use crate::search::{search_best_move, move_to_string, move_text, GlobalSearchState, lmr_ok, clock_ok, legal_or_none, mated_root, mate_in_one_root};
use crate::eval::PhaseTable;

verus! {

// ─── Tokens ─────────────────────────────────────────────────────

pub proof fn lemma_skip_ws_bounds(s: Seq<char>, i: int)
    requires
        0 <= i <= s.len(),
    ensures
        i <= skip_ws(s, i) <= s.len(),
        skip_ws(s, i) < s.len() ==> !is_ws(s[skip_ws(s, i)]),
    decreases s.len() - i,
{
    if i < s.len() && is_ws(s[i]) {
        lemma_skip_ws_bounds(s, i + 1);
    }
}

pub proof fn lemma_token_end_bounds(s: Seq<char>, i: int)
    requires
        0 <= i <= s.len(),
    ensures
        i <= token_end(s, i) <= s.len(),
        i < s.len() && !is_ws(s[i]) ==> i < token_end(s, i),
    decreases s.len() - i,
{
    if i < s.len() && !is_ws(s[i]) {
        lemma_token_end_bounds(s, i + 1);
    }
}

/// The whitespace-separated words of `s` from index `i` on (`str::split_whitespace`).
pub open spec fn tokens_from(s: Seq<char>, i: int) -> Seq<Seq<char>>
    decreases s.len() - i,
{
    if i < 0 || i >= s.len() {
        seq![]
    } else {
        let a = skip_ws(s, i);
        if a >= s.len() {
            seq![]
        } else {
            let e = token_end(s, a);
            proof {
                lemma_skip_ws_bounds(s, i);
                lemma_token_end_bounds(s, a);
            }
            seq![s.subrange(a, e)] + tokens_from(s, e)
        }
    }
}

/// The words of a line.
pub open spec fn tokens(s: Seq<char>) -> Seq<Seq<char>> {
    tokens_from(s, 0)
}

/// Splits a line into its whitespace-separated words.
fn split_words(line: &str) -> (words: Vec<Vec<char>>)
    ensures
        words@.len() == tokens(line@).len(),
        forall|k: int| 0 <= k < words@.len() ==> #[trigger] words@[k]@ == tokens(line@)[k],
{
    let chars = chars_of(line);
    let ghost s = line@;
    let mut words: Vec<Vec<char>> = Vec::new();
    let mut i: usize = 0;
    while i < chars.len()
        invariant
            chars@ == s,
            i <= s.len(),
            words@.len() + tokens_from(s, i as int).len() == tokens(s).len(),
            forall|k: int| 0 <= k < words@.len() ==> #[trigger] words@[k]@ == tokens(s)[k],
            forall|k: int| 0 <= k < tokens_from(s, i as int).len() ==> #[trigger] tokens_from(s, i as int)[k]
                == tokens(s)[words@.len() + k],
        decreases s.len() - i,
    {
        let a = skip_ws_from(&chars, i);
        proof {
            lemma_skip_ws_bounds(s, i as int);
        }
        if a >= chars.len() {
            assert(tokens_from(s, i as int) =~= seq![]);
            i = chars.len();
            assert(tokens_from(s, i as int) =~= seq![]);
        } else {
            let e = token_end_from(&chars, a);
            proof {
                lemma_token_end_bounds(s, a as int);
            }
            let mut w: Vec<char> = Vec::new();
            let mut j = a;
            while j < e
                invariant
                    chars@ == s,
                    a <= j <= e <= s.len(),
                    w@ == s.subrange(a as int, j as int),
                decreases e - j,
            {
                w.push(chars[j]);
                j += 1;
                assert(w@ =~= s.subrange(a as int, j as int));
            }
            let ghost rest = tokens_from(s, e as int);
            assert(tokens_from(s, i as int) == seq![s.subrange(a as int, e as int)] + rest);
            assert(tokens_from(s, i as int)[0] == s.subrange(a as int, e as int));
            assert forall|k: int| 0 <= k < rest.len() implies #[trigger] rest[k] == tokens(s)[words@.len() + 1 + k] by {
                assert(rest[k] == tokens_from(s, i as int)[k + 1]);
            }
            words.push(w);
            i = e;
        }
    }
    assert(tokens_from(s, i as int) =~= seq![]);
    words
}

// ─── Numbers ────────────────────────────────────────────────────

/// Every character is an ASCII digit.
pub open spec fn all_digits(d: Seq<char>) -> bool {
    forall|k: int| 0 <= k < d.len() ==> is_digit(#[trigger] d[k])
}

/// The decimal value of a string of digits.
pub open spec fn digits_value(d: Seq<char>) -> int
    decreases d.len(),
{
    if d.len() == 0 {
        0
    } else {
        digits_value(d.drop_last()) * 10 + digit_value(d.last())
    }
}

/// `str::parse::<u64>`: an optional '+', then one or more digits, at most u64::MAX.
pub open spec fn parse_u64_spec(s: Seq<char>) -> Option<u64> {
    let d = if s.len() > 0 && s[0] == '+' { s.drop_first() } else { s };
    if d.len() > 0 && all_digits(d) && digits_value(d) <= u64::MAX {
        Some(digits_value(d) as u64)
    } else {
        None
    }
}

/// `str::parse::<i32>`: an optional sign, then one or more digits, within the i32 range.
pub open spec fn parse_i32_spec(s: Seq<char>) -> Option<i32> {
    let neg = s.len() > 0 && s[0] == '-';
    let d = if s.len() > 0 && (s[0] == '+' || s[0] == '-') { s.drop_first() } else { s };
    let v = if neg { -digits_value(d) } else { digits_value(d) };
    if d.len() > 0 && all_digits(d) && i32::MIN <= v <= i32::MAX {
        Some(v as i32)
    } else {
        None
    }
}

proof fn lemma_digits_grow(d: Seq<char>, k: int)
    requires
        all_digits(d),
        0 <= k <= d.len(),
    ensures
        0 <= digits_value(d.subrange(0, k)) <= digits_value(d),
    decreases d.len(),
{
    if d.len() > 0 {
        assert(all_digits(d.drop_last())) by {
            assert forall|j: int| 0 <= j < d.drop_last().len() implies is_digit(#[trigger] d.drop_last()[j]) by {
                assert(is_digit(d[j]));
            }
        }
        assert(is_digit(d[d.len() - 1]));
        if k == d.len() {
            assert(d.subrange(0, k) =~= d);
            lemma_digits_grow(d.drop_last(), 0);
        } else {
            lemma_digits_grow(d.drop_last(), k);
            assert(d.drop_last().subrange(0, k) =~= d.subrange(0, k));
        }
    } else {
        assert(d.subrange(0, k) =~= d);
    }
}

/// Reads the digits `t[start..]` as a number no larger than `max`.
fn read_digits(t: &Vec<char>, start: usize, max: u64) -> (r: Option<u64>)
    requires
        start <= t@.len(),
        max >= 9,
    ensures
        ({
            let d = t@.subrange(start as int, t@.len() as int);
            &&& r is Some <==> (d.len() > 0 && all_digits(d) && digits_value(d) <= max)
            &&& r matches Some(v) ==> v == digits_value(d)
        }),
{
    let ghost d = t@.subrange(start as int, t@.len() as int);
    if start >= t.len() {
        return None;
    }
    let mut value: u64 = 0;
    let mut over = false;
    let mut i = start;
    while i < t.len()
        invariant
            start <= i <= t@.len(),
            d == t@.subrange(start as int, t@.len() as int),
            all_digits(d.subrange(0, i - start)),
            max >= 9,
            !over ==> value == digits_value(d.subrange(0, i - start)) && value <= max,
            over ==> digits_value(d.subrange(0, i - start)) > max,
        decreases t@.len() - i,
    {
        let c = t[i];
        if !char_is_digit(c) {
            assert(!is_digit(d[i - start]));
            return None;
        }
        let ghost prev = d.subrange(0, i - start);
        let ghost next = d.subrange(0, i + 1 - start);
        assert(next.drop_last() =~= prev);
        assert(next.last() == c);
        proof {
            lemma_digits_grow(prev, 0);
        }
        let dv = (c as u32 - 48) as u64;
        if !over {
            if value > (max - dv) / 10 {
                over = true;
                assert(digits_value(next) > max) by (nonlinear_arith)
                    requires
                        digits_value(next) == value * 10 + dv,
                        value > (max - dv) / 10,
                        0 <= dv <= 9,
                        dv <= max,
                        value >= 0,
                {
                }
            } else {
                assert(value * 10 + dv <= max) by (nonlinear_arith)
                    requires
                        value <= (max - dv) / 10,
                        0 <= dv <= 9,
                        dv <= max,
                        value >= 0,
                {
                }
                value = value * 10 + dv;
            }
        } else {
            assert(digits_value(next) >= digits_value(prev)) by (nonlinear_arith)
                requires
                    digits_value(next) == digits_value(prev) * 10 + digit_value(c),
                    digits_value(prev) >= 0,
                    0 <= digit_value(c) <= 9,
            {
            }
        }
        assert(all_digits(next)) by {
            assert forall|k: int| 0 <= k < next.len() implies is_digit(#[trigger] next[k]) by {
                if k < prev.len() {
                    assert(next[k] == prev[k]);
                }
            }
        }
        i += 1;
    }
    assert(d.subrange(0, i - start) =~= d);
    if over {
        None
    } else {
        Some(value)
    }
}

/// `str::parse::<u64>` on a word.
pub fn parse_u64(t: &Vec<char>) -> (r: Option<u64>)
    ensures
        r == parse_u64_spec(t@),
{
    let start: usize = if t.len() > 0 && t[0] == '+' { 1 } else { 0 };
    let r = read_digits(t, start, u64::MAX);
    proof {
        let d = if t@.len() > 0 && t@[0] == '+' { t@.drop_first() } else { t@ };
        assert(t@.subrange(start as int, t@.len() as int) =~= d);
    }
    r
}

/// `str::parse::<i32>` on a word.
pub fn parse_i32(t: &Vec<char>) -> (r: Option<i32>)
    ensures
        r == parse_i32_spec(t@),
{
    let neg = t.len() > 0 && t[0] == '-';
    let start: usize = if t.len() > 0 && (t[0] == '+' || t[0] == '-') { 1 } else { 0 };
    let max: u64 = if neg { 2147483648 } else { 2147483647 };
    let r = read_digits(t, start, max);
    proof {
        let d = if t@.len() > 0 && (t@[0] == '+' || t@[0] == '-') { t@.drop_first() } else { t@ };
        assert(t@.subrange(start as int, t@.len() as int) =~= d);
    }
    match r {
        Some(v) => {
            if neg {
                if v == 2147483648 {
                    Some(i32::MIN)
                } else {
                    Some(-(v as i32))
                }
            } else {
                Some(v as i32)
            }
        },
        None => None,
    }
}

// ─── Commands ───────────────────────────────────────────────────

/// A line of the UCI protocol, as the engine understands it.
pub enum UciCommand {
    /// "uci": identify the engine.
    Uci,
    /// "isready".
    IsReady,
    /// "ucinewgame": back to an empty board.
    NewGame,
    /// "position fen <fields>": the fields after "fen", joined by single spaces.
    PositionFen(String),
    /// "position startpos": the standard starting position.
    PositionStart,
    /// "position" followed by anything else: nothing changes.
    Position,
    /// "go": search for `movetime` milliseconds at the given difficulty.
    Go { movetime: u64, difficulty: i32 },
    /// "quit".
    Quit,
    /// Any other first word.
    Unknown(String),
    /// A line with no words.
    Blank,
}

/// Words joined by single spaces.
pub open spec fn join_words(ts: Seq<Seq<char>>) -> Seq<char>
    decreases ts.len(),
{
    if ts.len() == 0 {
        seq![]
    } else if ts.len() == 1 {
        ts[0]
    } else {
        join_words(ts.drop_last()) + seq![' '] + ts.last()
    }
}

/// The "movetime" value of a "go" line: the word after the last "movetime"
/// among words 1..n-1 that has a word after it, read as u64 (2000 if it does
/// not read, or if there is no such "movetime").
pub open spec fn go_movetime(t: Seq<Seq<char>>, n: int) -> u64
    decreases n,
{
    if n <= 1 {
        2000
    } else if t[n - 1] == "movetime"@ && n < t.len() {
        match parse_u64_spec(t[n]) {
            Some(v) => v,
            None => 2000,
        }
    } else {
        go_movetime(t, n - 1)
    }
}

/// The "level" value of a "go" line, read as i32 in the same way (default 1).
pub open spec fn go_level(t: Seq<Seq<char>>, n: int) -> i32
    decreases n,
{
    if n <= 1 {
        1
    } else if t[n - 1] == "level"@ && n < t.len() {
        match parse_i32_spec(t[n]) {
            Some(v) => v,
            None => 1,
        }
    } else {
        go_level(t, n - 1)
    }
}

/// The first word names no command the engine knows.
pub open spec fn unknown_word(w: Seq<char>) -> bool {
    w != "uci"@ && w != "isready"@ && w != "ucinewgame"@ && w != "position"@ && w != "go"@ && w
        != "quit"@
}

/// `cmd` is what the words `t` of a line ask for.
pub open spec fn command_of(cmd: UciCommand, t: Seq<Seq<char>>) -> bool {
    match cmd {
        UciCommand::Blank => t.len() == 0,
        UciCommand::Uci => t.len() > 0 && t[0] == "uci"@,
        UciCommand::IsReady => t.len() > 0 && t[0] == "isready"@,
        UciCommand::NewGame => t.len() > 0 && t[0] == "ucinewgame"@,
        UciCommand::PositionFen(f) => t.len() > 1 && t[0] == "position"@ && t[1] == "fen"@ && f@
            == join_words(t.subrange(2, t.len() as int)),
        UciCommand::PositionStart => t.len() > 1 && t[0] == "position"@ && t[1] == "startpos"@,
        UciCommand::Position => t.len() > 0 && t[0] == "position"@ && (t.len() == 1 || (t[1]
            != "fen"@ && t[1] != "startpos"@)),
        UciCommand::Go { movetime, difficulty } => t.len() > 0 && t[0] == "go"@ && movetime
            == go_movetime(t, t.len() as int) && difficulty == go_level(t, t.len() as int),
        UciCommand::Quit => t.len() > 0 && t[0] == "quit"@,
        UciCommand::Unknown(w) => t.len() > 0 && unknown_word(t[0]) && w@ == t[0],
    }
}

/// Does the word read `lit`?
fn word_is(w: &Vec<char>, lit: &str) -> (b: bool)
    ensures
        b == (w@ == lit@),
{
    let l = chars_of(lit);
    if w.len() != l.len() {
        return false;
    }
    let mut i: usize = 0;
    while i < w.len()
        invariant
            w@.len() == l@.len(),
            l@ == lit@,
            i <= w@.len(),
            forall|k: int| 0 <= k < i ==> w@[k] == l@[k],
        decreases w@.len() - i,
    {
        if w[i] != l[i] {
            return false;
        }
        i += 1;
    }
    assert(w@ =~= lit@);
    true
}

/// A string holding the characters of a word.
fn word_string(w: &Vec<char>) -> (s: String)
    ensures
        s@ == w@,
{
    let mut s = String::new();
    let mut i: usize = 0;
    while i < w.len()
        invariant
            i <= w@.len(),
            s@ == w@.subrange(0, i as int),
        decreases w@.len() - i,
    {
        push_char(&mut s, w[i]);
        i += 1;
        assert(s@ =~= w@.subrange(0, i as int));
    }
    assert(w@.subrange(0, i as int) =~= w@);
    s
}

/// The words from `start` on, joined by single spaces.
fn join_from(words: &Vec<Vec<char>>, start: usize) -> (s: String)
    requires
        start <= words@.len(),
    ensures
        s@ == join_words(words@.map_values(|w: Vec<char>| w@).subrange(start as int, words@.len() as int)),
{
    let ghost ws = words@.map_values(|w: Vec<char>| w@);
    let mut s = String::new();
    let mut i = start;
    while i < words.len()
        invariant
            start <= i <= words@.len(),
            ws == words@.map_values(|w: Vec<char>| w@),
            s@ == join_words(ws.subrange(start as int, i as int)),
        decreases words@.len() - i,
    {
        let ghost before = s@;
        if i > start {
            push_char(&mut s, ' ');
        }
        let w = &words[i];
        let mut j: usize = 0;
        let ghost mid = s@;
        while j < w.len()
            invariant
                j <= w@.len(),
                s@ == mid + w@.subrange(0, j as int),
            decreases w@.len() - j,
        {
            push_char(&mut s, w[j]);
            j += 1;
            assert(s@ =~= mid + w@.subrange(0, j as int));
        }
        assert(w@.subrange(0, j as int) =~= w@);
        let ghost next = ws.subrange(start as int, i + 1);
        assert(next.drop_last() =~= ws.subrange(start as int, i as int));
        assert(next.last() == w@);
        if i > start {
            assert(s@ =~= join_words(next));
        } else {
            assert(s@ =~= join_words(next));
        }
        i += 1;
    }
    s
}

/// Reads a UCI line.
pub fn parse_command(line: &str) -> (cmd: UciCommand)
    ensures
        command_of(cmd, tokens(line@)),
{
    let words = split_words(line);
    let ghost t = tokens(line@);
    proof {
        assert(words@.map_values(|w: Vec<char>| w@) =~= t);
    }
    if words.len() == 0 {
        return UciCommand::Blank;
    }
    let first = &words[0];
    if word_is(first, "uci") {
        UciCommand::Uci
    } else if word_is(first, "isready") {
        UciCommand::IsReady
    } else if word_is(first, "ucinewgame") {
        UciCommand::NewGame
    } else if word_is(first, "position") {
        if words.len() > 1 && word_is(&words[1], "fen") {
            UciCommand::PositionFen(join_from(&words, 2))
        } else if words.len() > 1 && word_is(&words[1], "startpos") {
            UciCommand::PositionStart
        } else {
            UciCommand::Position
        }
    } else if word_is(first, "go") {
        let mut movetime: u64 = 2000;
        let mut difficulty: i32 = 1;
        let mut i: usize = 1;
        while i < words.len()
            invariant
                1 <= i <= words@.len(),
                words@.len() == t.len(),
                forall|k: int| 0 <= k < words@.len() ==> #[trigger] words@[k]@ == t[k],
                movetime == go_movetime(t, i as int),
                difficulty == go_level(t, i as int),
            decreases words@.len() - i,
        {
            if word_is(&words[i], "movetime") && i + 1 < words.len() {
                movetime = match parse_u64(&words[i + 1]) {
                    Some(v) => v,
                    None => 2000,
                };
            }
            if word_is(&words[i], "level") && i + 1 < words.len() {
                difficulty = match parse_i32(&words[i + 1]) {
                    Some(v) => v,
                    None => 1,
                };
            }
            i += 1;
        }
        UciCommand::Go { movetime, difficulty }
    } else if word_is(first, "quit") {
        UciCommand::Quit
    } else {
        UciCommand::Unknown(word_string(first))
    }
}

// ─── Replies ────────────────────────────────────────────────────

/// The empty board "ucinewgame" leaves, with the standard keys.
pub open spec fn empty_board_view() -> BoardView {
    BoardView {
        pieces: empty_pieces(),
        side: Color::White,
        hash: 0,
        ply: 0,
        half_moves: 0,
        history: Seq::empty(),
        keys: standard_keys(),
        side_key: standard_side_key(),
    }
}

pub(crate) fn new_empty_board() -> (b: Board)
    ensures
        b@ == empty_board_view(),
{
    let b = Board::new();
    assert(b@.pieces =~= empty_pieces());
    assert(b@.history =~= Seq::<UndoInfo>::empty());
    assert(b@ =~= empty_board_view());
    b
}

/// The lines that identify the engine.
pub open spec fn identity_text(i: int) -> Seq<char> {
    if i == 0 {
        "id name TamerlaneEngine v3.0"@
    } else if i == 1 {
        "id author Gokce"@
    } else {
        "uciok"@
    }
}

/// The identification lines, printed at start-up and in answer to "uci".
pub fn identity_lines() -> (v: Vec<String>)
    ensures
        v@.len() == 3,
        forall|i: int| 0 <= i < 3 ==> #[trigger] v@[i]@ == identity_text(i),
{
    let mut v: Vec<String> = Vec::new();
    v.push("id name TamerlaneEngine v3.0".to_owned());
    v.push("id author Gokce".to_owned());
    v.push("uciok".to_owned());
    v
}

/// `prefix` followed by `rest`.
fn concat(prefix: &str, rest: &String) -> (s: String)
    ensures
        s@ == prefix@ + rest@,
{
    let mut s = prefix.to_owned();
    let tail = chars_of(rest.as_str());
    let ghost p = s@;
    let mut i: usize = 0;
    while i < tail.len()
        invariant
            i <= tail@.len(),
            tail@ == rest@,
            s@ == p + tail@.subrange(0, i as int),
        decreases tail@.len() - i,
    {
        push_char(&mut s, tail[i]);
        i += 1;
        assert(s@ =~= p + tail@.subrange(0, i as int));
    }
    assert(tail@.subrange(0, i as int) =~= tail@);
    s
}

/// Carries out one command on the engine's board: returns the lines to print,
/// or `None` for "quit". "go" searches the board and answers
/// "bestmove <move>" with a legal move (or "bestmove none"); "ucinewgame"
/// leaves an empty board, "position startpos" the starting position and
/// "position fen" the position of the FEN text.
pub fn uci_step<L: Fn(i32, i32) -> i32, C: Fn() -> u64>(
    board: &mut Board,
    cmd: &UciCommand,
    state: &mut GlobalSearchState,
    phase: &PhaseTable,
    lmr: &L,
    clock: &C,
) -> (reply: Option<Vec<String>>)
    requires
        old(board)@.wf(),
        old(state).wf(),
        phase.wf(),
        lmr_ok(lmr),
        clock_ok(clock),
        cmd matches UciCommand::PositionFen(f) ==> fen_readable(f@),
    ensures
        final(board)@.wf(),
        final(state).wf(),
        match cmd {
            UciCommand::Quit => reply is None && final(board)@ == old(board)@,
            UciCommand::Uci => reply matches Some(v) && v@.len() == 3 && (forall|i: int|
                0 <= i < 3 ==> #[trigger] v@[i]@ == identity_text(i)) && final(board)@ == old(board)@,
            UciCommand::IsReady => reply matches Some(v) && v@.len() == 1 && v@[0]@ == "readyok"@
                && final(board)@ == old(board)@,
            UciCommand::NewGame => reply matches Some(v) && v@.len() == 0 && final(board)@
                == empty_board_view(),
            UciCommand::PositionStart => reply matches Some(v) && v@.len() == 0 && final(board)@
                == fen_view(START_FEN@),
            UciCommand::PositionFen(f) => reply matches Some(v) && v@.len() == 0 && final(board)@
                == fen_view(f@),
            UciCommand::Position | UciCommand::Blank => reply matches Some(v) && v@.len() == 0
                && final(board)@ == old(board)@,
            UciCommand::Go { movetime, difficulty } => reply matches Some(v) && v@.len() == 1 && (exists|m: Move|
                legal_or_none(old(board)@, m) && v@[0]@ == "bestmove "@ + move_text(m)) && final(board)@
                == old(board)@ && (mated_root(old(board)@, *movetime, clock) ==> v@[0]@ == "bestmove "@
                + move_text(MOVE_NONE)) && (mate_in_one_root(old(board)@, *movetime, clock) ==> exists|m: Move|
                #[trigger] spec_legal_moves(old(board)@).contains(m) && v@[0]@ == "bestmove "@ + move_text(m)),
            UciCommand::Unknown(w) => reply matches Some(v) && v@.len() == 1 && v@[0]@
                == "Unknown command: "@ + w@ && final(board)@ == old(board)@,
        },
{
    match cmd {
        UciCommand::Uci => Some(identity_lines()),
        UciCommand::IsReady => {
            let mut v: Vec<String> = Vec::new();
            v.push("readyok".to_owned());
            Some(v)
        },
        UciCommand::NewGame => {
            *board = new_empty_board();
            Some(Vec::new())
        },
        UciCommand::PositionStart => {
            proof {
                crate::fen_laws::lemma_start_fen_readable();
            }
            let b = Board::from_fen(START_FEN);
            proof {
                crate::lemma_reads_fen_view(b, START_FEN@);
            }
            *board = b;
            Some(Vec::new())
        },
        UciCommand::PositionFen(f) => {
            let b = Board::from_fen(f.as_str());
            proof {
                crate::lemma_reads_fen_view(b, f@);
            }
            *board = b;
            Some(Vec::new())
        },
        UciCommand::Position | UciCommand::Blank => Some(Vec::new()),
        UciCommand::Go { movetime, difficulty } => {
            let ghost b0 = board@;
            let (best, _score, _depth, _nodes) = search_best_move(board, *movetime, *difficulty, state, phase, lmr, clock);
            proof {
                lemma_moves_on_board(b0);
                if best != MOVE_NONE {
                    let k = choose|k: int| 0 <= k < spec_legal_moves(b0).len() && spec_legal_moves(b0)[k] == best;
                    assert(on_board_move(spec_legal_moves(b0)[k]));
                }
            }
            let text = move_to_string(best, board);
            let mut v: Vec<String> = Vec::new();
            v.push(concat("bestmove ", &text));
            Some(v)
        },
        UciCommand::Quit => None,
        UciCommand::Unknown(w) => {
            let mut v: Vec<String> = Vec::new();
            v.push(concat("Unknown command: ", w));
            Some(v)
        },
    }
}

} // verus!
