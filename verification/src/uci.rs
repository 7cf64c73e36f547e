use vstd::prelude::*;
use std::sync::Arc;
use std::sync::atomic::Ordering;
use crate::engine::search::SearchState;
use crate::engine::search_heuristics::{
    INC_FRACTION_DENOM, INC_FRACTION_NUM, MOVE_OVERHEAD, PANIC_THRESHOLD_MS,
    SINGLE_LEGAL_MOVE_TIME_MS, TIME_DIVISOR,
};

verus! {

// ---------------------------------------------------------------------------------------------
// words and numbers
// ---------------------------------------------------------------------------------------------

/// The words of a command line.
pub open spec fn words(parts: Seq<&str>) -> Seq<Seq<char>> {
    parts.map_values(|p: &str| p@)
}

/// Unicode's White_Space property, which `char::is_whitespace` tests.
pub open spec fn is_white_space(c: char) -> bool {
    let u = c as u32;
    ||| 9 <= u <= 13
    ||| u == 0x20 || u == 0x85 || u == 0xA0 || u == 0x1680
    ||| 0x2000 <= u <= 0x200A
    ||| u == 0x2028 || u == 0x2029 || u == 0x202F || u == 0x205F || u == 0x3000
}

/// The words of a line: its maximal runs of characters other than white space, in order.
pub open spec fn whitespace_words(line: Seq<char>) -> Seq<Seq<char>>
    decreases line.len(),
{
    if line.len() == 0 {
        Seq::empty()
    } else {
        let prev = whitespace_words(line.drop_last());
        let c = line.last();
        if is_white_space(c) {
            prev
        } else if line.len() >= 2 && !is_white_space(line[line.len() - 2]) {
            prev.update(prev.len() - 1, prev.last().push(c))
        } else {
            prev.push(seq![c])
        }
    }
}

/// `str::split_whitespace`, collected: the maximal runs of non-White_Space characters of
/// `line`, in order (std documents the split as by Unicode White_Space, with no empty
/// pieces).
#[verifier::external_body]
pub fn split_words<'a>(line: &'a str) -> (parts: Vec<&'a str>)
    ensures
        words(parts@) == whitespace_words(line@),
{
    line.split_whitespace().collect()
}

/// Whether two words are equal.
pub fn same_word(a: &str, b: &str) -> (r: bool)
    ensures
        r == (a@ == b@),
{
    let n: usize = a.unicode_len();
    if n != b.unicode_len() {
        return false;
    }
    let mut i: usize = 0;
    while i < n
        invariant
            n == a@.len(),
            n == b@.len(),
            i <= n,
            forall|j: int| 0 <= j < i ==> a@[j] == b@[j],
        decreases n - i,
    {
        if a.get_char(i) != b.get_char(i) {
            return false;
        }
        i = i + 1;
    }
    assert(a@ =~= b@);
    true
}

/// The index of the first word equal to `w` at or after `from`.
pub open spec fn find_word(ws: Seq<Seq<char>>, w: Seq<char>, from: int) -> Option<int>
    decreases ws.len() - from,
{
    if from < 0 || from >= ws.len() {
        None
    } else if ws[from] == w {
        Some(from)
    } else {
        find_word(ws, w, from + 1)
    }
}

proof fn lemma_find_word(ws: Seq<Seq<char>>, w: Seq<char>, from: int)
    requires
        0 <= from,
    ensures
        find_word(ws, w, from) matches Some(i) ==> from <= i < ws.len() && ws[i] == w,
        find_word(ws, w, from) is None ==> forall|j: int| from <= j < ws.len() ==> ws[j] != w,
        find_word(ws, w, from) matches Some(i) ==> forall|j: int| from <= j < i ==> ws[j] != w,
    decreases ws.len() - from,
{
    if from < ws.len() && ws[from] != w {
        lemma_find_word(ws, w, from + 1);
    }
}

/// The index of the first word of `parts` equal to `w`.
pub fn position_of(parts: &[&str], w: &str) -> (r: Option<usize>)
    ensures
        r == (match find_word(words(parts@), w@, 0) {
            Some(i) => Some(i as usize),
            None => None::<usize>,
        }),
        r matches Some(i) ==> i < parts@.len() && find_word(words(parts@), w@, 0) == Some(
            i as int,
        ),
        r is None ==> find_word(words(parts@), w@, 0) is None,
{
    let ghost ws: Seq<Seq<char>> = words(parts@);
    proof {
        lemma_find_word(ws, w@, 0);
    }
    let n: usize = parts.len();
    let mut i: usize = 0;
    while i < n
        invariant
            ws == words(parts@),
            n == parts@.len(),
            i <= n,
            find_word(ws, w@, 0) == find_word(ws, w@, i as int),
        decreases n - i,
    {
        if same_word(parts[i], w) {
            assert(ws[i as int] == parts@[i as int]@);
            return Some(i);
        }
        assert(ws[i as int] == parts@[i as int]@);
        i = i + 1;
    }
    None
}

/// An ASCII digit.
pub open spec fn is_digit(c: char) -> bool {
    48 <= (c as u32) <= 57
}

/// The value of a string of ASCII digits.
pub open spec fn decimal_value(d: Seq<char>) -> nat
    decreases d.len(),
{
    if d.len() == 0 {
        0
    } else {
        decimal_value(d.drop_last()) * 10 + ((d.last() as u32) - 48) as nat
    }
}

/// The digits of an unsigned number: what follows an optional leading `+`.
pub open spec fn unsigned_digits(s: Seq<char>) -> Seq<char> {
    if s.len() > 0 && s[0] == '+' {
        s.drop_first()
    } else {
        s
    }
}

/// `FromStr` for an unsigned integer type whose maximum is `max`: an optional `+` followed by
/// at least one ASCII digit, nothing else, of a value at most `max`.
pub open spec fn parse_unsigned_spec(s: Seq<char>, max: nat) -> Option<nat> {
    let d = unsigned_digits(s);
    if d.len() > 0 && (forall|i: int| 0 <= i < d.len() ==> #[trigger] is_digit(d[i]))
        && decimal_value(d) <= max {
        Some(decimal_value(d))
    } else {
        None
    }
}

proof fn lemma_decimal_prefix(d: Seq<char>, k: int)
    requires
        0 <= k <= d.len(),
    ensures
        decimal_value(d.subrange(0, k)) <= decimal_value(d),
    decreases d.len() - k,
{
    if k < d.len() {
        lemma_decimal_prefix(d, k + 1);
        assert(d.subrange(0, k + 1).drop_last() =~= d.subrange(0, k));
    } else {
        assert(d.subrange(0, k) =~= d);
    }
}

/// Parses an unsigned number of at most `max` as `FromStr` does (see `parse_unsigned_spec`).
pub fn parse_unsigned(s: &str, max: u64) -> (r: Option<u64>)
    ensures
        r == (match parse_unsigned_spec(s@, max as nat) {
            Some(v) => Some(v as u64),
            None => None::<u64>,
        }),
{
    let n: usize = s.unicode_len();
    if n == 0 {
        return None;
    }
    let start: usize = if s.get_char(0) == '+' {
        1
    } else {
        0
    };
    let ghost d: Seq<char> = unsigned_digits(s@);
    assert(d =~= s@.subrange(start as int, n as int));
    if start == n {
        return None;
    }
    let mut value: u64 = 0;
    let mut i: usize = start;
    while i < n
        invariant
            n == s@.len(),
            start <= i <= n,
            start < n,
            d == unsigned_digits(s@),
            d =~= s@.subrange(start as int, n as int),
            forall|j: int| 0 <= j < i - start ==> #[trigger] is_digit(d[j]),
            value == decimal_value(d.subrange(0, i - start)),
            value <= max,
        decreases n - i,
    {
        let c: char = s.get_char(i);
        let code: u32 = c as u32;
        assert(d[i - start] == c);
        if code < 48 || code > 57 {
            assert(!is_digit(d[i - start]));
            assert(parse_unsigned_spec(s@, max as nat) is None);
            return None;
        }
        let dv: u64 = (code - 48) as u64;
        proof {
            assert(d.subrange(0, i - start + 1).drop_last() =~= d.subrange(0, i - start));
            assert(d.subrange(0, i - start + 1).last() == c);
        }
        if dv > max || value > (max - dv) / 10 {
            proof {
                assert(decimal_value(d.subrange(0, i - start + 1)) == value * 10 + dv);
                assert(value * 10 + dv > max) by (nonlinear_arith)
                    requires
                        dv > max || value > (max - dv) / 10,
                        dv <= 9,
                ;
                lemma_decimal_prefix(d, i - start + 1);
                assert(decimal_value(d) > max);
                assert(parse_unsigned_spec(s@, max as nat) is None);
            }
            return None;
        }
        proof {
            assert(value * 10 + dv <= max) by (nonlinear_arith)
                requires
                    dv <= max,
                    value <= (max - dv) / 10,
            ;
        }
        value = value * 10 + dv;
        i = i + 1;
    }
    assert(d.subrange(0, n - start) =~= d);
    Some(value)
}

// ---------------------------------------------------------------------------------------------
// commands
// ---------------------------------------------------------------------------------------------

/// What a `setoption` command asks for.
#[derive(PartialEq, Eq, Structural, Clone, Copy, Debug)]
pub enum SetOption {
    /// A new transposition table of this many MiB.
    Hash(usize),
    /// This many search threads (at least one).
    Threads(usize),
    /// Whether to suggest a move to ponder on.
    Ponder(bool),
    /// Anything else, or a value that does not parse: nothing changes.
    Ignored,
}

/// `setoption name <Hash|Threads|Ponder> value <v>`: Hash and Threads take a `usize` (Threads
/// at least 1), Ponder is on exactly for the value `true`.
pub open spec fn setoption_spec(ws: Seq<Seq<char>>) -> SetOption {
    if ws.len() < 5 || ws[1] != "name"@ || ws[3] != "value"@ {
        SetOption::Ignored
    } else if ws[2] == "Hash"@ {
        match parse_unsigned_spec(ws[4], usize::MAX as nat) {
            Some(v) => SetOption::Hash(v as usize),
            None => SetOption::Ignored,
        }
    } else if ws[2] == "Threads"@ {
        match parse_unsigned_spec(ws[4], usize::MAX as nat) {
            Some(v) => SetOption::Threads(if v == 0 {
                1usize
            } else {
                v as usize
            }),
            None => SetOption::Ignored,
        }
    } else if ws[2] == "Ponder"@ {
        SetOption::Ponder(ws[4] == "true"@)
    } else {
        SetOption::Ignored
    }
}

/// Reads a `setoption` command (see `setoption_spec`).
pub fn handle_setoption(parts: &[&str]) -> (r: SetOption)
    ensures
        r == setoption_spec(words(parts@)),
{
    let ghost ws: Seq<Seq<char>> = words(parts@);
    if parts.len() < 5 {
        return SetOption::Ignored;
    }
    assert(ws[1] == parts@[1]@ && ws[2] == parts@[2]@ && ws[3] == parts@[3]@ && ws[4]
        == parts@[4]@);
    if !same_word(parts[1], "name") || !same_word(parts[3], "value") {
        return SetOption::Ignored;
    }
    let value: &str = parts[4];
    if same_word(parts[2], "Hash") {
        match parse_unsigned(value, usize::MAX as u64) {
            Some(v) => SetOption::Hash(v as usize),
            None => SetOption::Ignored,
        }
    } else if same_word(parts[2], "Threads") {
        match parse_unsigned(value, usize::MAX as u64) {
            Some(v) => SetOption::Threads(if v == 0 {
                1
            } else {
                v as usize
            }),
            None => SetOption::Ignored,
        }
    } else if same_word(parts[2], "Ponder") {
        SetOption::Ponder(same_word(value, "true"))
    } else {
        SetOption::Ignored
    }
}

/// Where a `position` command puts the game: the start position, or the FEN made of the words
/// from the third up to (not including) word `fen_end`, joined by spaces; then the moves from
/// word `moves_from` on.
#[derive(PartialEq, Eq, Structural, Clone, Copy, Debug)]
pub struct PositionPlan {
    pub fen_end: Option<usize>,
    pub moves_from: Option<usize>,
}

/// `position startpos [moves ...]` or `position fen <fields> [moves ...]`: the FEN is taken as
/// the words from the third up to (not including) the ninth, and the moves start after the
/// first word `moves`. Anything else leaves the game as it is.
pub open spec fn position_spec(ws: Seq<Seq<char>>) -> Option<PositionPlan> {
    let moves_from = match find_word(ws, "moves"@, 0) {
        Some(i) => Some((i + 1) as usize),
        None => None::<usize>,
    };
    if ws.len() < 2 {
        None
    } else if ws[1] == "startpos"@ {
        Some(PositionPlan { fen_end: None, moves_from })
    } else if ws[1] == "fen"@ {
        Some(
            PositionPlan {
                fen_end: Some(
                    if ws.len() < 8 {
                        ws.len() as usize
                    } else {
                        8usize
                    },
                ),
                moves_from,
            },
        )
    } else {
        None
    }
}

/// Reads a `position` command (see `position_spec`).
pub fn handle_position(parts: &[&str]) -> (r: Option<PositionPlan>)
    ensures
        r == position_spec(words(parts@)),
{
    if parts.len() < 2 {
        return None;
    }
    assert(words(parts@)[1] == parts@[1]@);
    let moves_at: Option<usize> = position_of(parts, "moves");
    let moves_from: Option<usize> = match moves_at {
        Some(i) => Some(i + 1),
        None => None,
    };
    if same_word(parts[1], "startpos") {
        Some(PositionPlan { fen_end: None, moves_from })
    } else if same_word(parts[1], "fen") {
        let end: usize = if parts.len() < 8 {
            parts.len()
        } else {
            8
        };
        Some(PositionPlan { fen_end: Some(end), moves_from })
    } else {
        None
    }
}

/// The value after the first word `name`, parsed as an unsigned number of at most `max`.
pub open spec fn go_param(ws: Seq<Seq<char>>, name: Seq<char>, max: nat) -> Option<nat> {
    match find_word(ws, name, 0) {
        Some(i) => if i + 1 < ws.len() {
            parse_unsigned_spec(ws[i + 1], max)
        } else {
            None
        },
        None => None,
    }
}

/// Looks up a `<name> <value>` pair anywhere in a `go` command's words and parses the value
/// as an unsigned number of at most `max`.
pub fn parse_go_param(parts: &[&str], name: &str, max: u64) -> (r: Option<u64>)
    ensures
        r == (match go_param(words(parts@), name@, max as nat) {
            Some(v) => Some(v as u64),
            None => None::<u64>,
        }),
{
    match position_of(parts, name) {
        Some(i) => {
            if i < parts.len() - 1 {
                assert(words(parts@)[i + 1] == parts@[i + 1]@);
                parse_unsigned(parts[i + 1], max)
            } else {
                None
            }
        },
        None => None,
    }
}

/// The parameters of a `go` command.
#[derive(PartialEq, Eq, Structural, Clone, Copy, Debug)]
pub struct GoParams {
    pub depth: Option<u8>,
    pub movetime: Option<u32>,
    pub wtime: Option<u32>,
    pub btime: Option<u32>,
    pub winc: Option<u32>,
    pub binc: Option<u32>,
    /// The word `ponder` is present.
    pub ponder: bool,
}

pub open spec fn as_u8(o: Option<nat>) -> Option<u8> {
    match o {
        Some(v) => Some(v as u8),
        None => None,
    }
}

pub open spec fn as_u32(o: Option<nat>) -> Option<u32> {
    match o {
        Some(v) => Some(v as u32),
        None => None,
    }
}

/// The `go` parameters of a command's words: `depth` a `u8`, the times and increments `u32`s.
pub open spec fn go_params_spec(ws: Seq<Seq<char>>) -> GoParams {
    GoParams {
        depth: as_u8(go_param(ws, "depth"@, 255)),
        movetime: as_u32(go_param(ws, "movetime"@, u32::MAX as nat)),
        wtime: as_u32(go_param(ws, "wtime"@, u32::MAX as nat)),
        btime: as_u32(go_param(ws, "btime"@, u32::MAX as nat)),
        winc: as_u32(go_param(ws, "winc"@, u32::MAX as nat)),
        binc: as_u32(go_param(ws, "binc"@, u32::MAX as nat)),
        ponder: find_word(ws, "ponder"@, 0) is Some,
    }
}

fn go_param_u32(parts: &[&str], name: &str) -> (r: Option<u32>)
    ensures
        r == as_u32(go_param(words(parts@), name@, u32::MAX as nat)),
{
    match parse_go_param(parts, name, u32::MAX as u64) {
        Some(v) => Some(v as u32),
        None => None,
    }
}

/// Reads the parameters of a `go` command (see `go_params_spec`).
pub fn parse_go(parts: &[&str]) -> (p: GoParams)
    ensures
        p == go_params_spec(words(parts@)),
{
    let depth: Option<u8> = match parse_go_param(parts, "depth", 255) {
        Some(v) => Some(v as u8),
        None => None,
    };
    GoParams {
        depth,
        movetime: go_param_u32(parts, "movetime"),
        wtime: go_param_u32(parts, "wtime"),
        btime: go_param_u32(parts, "btime"),
        winc: go_param_u32(parts, "winc"),
        binc: go_param_u32(parts, "binc"),
        ponder: position_of(parts, "ponder").is_some(),
    }
}

/// A UCI command line, read.
#[derive(PartialEq, Eq, Structural, Clone, Copy, Debug)]
pub enum UciCommand {
    /// A blank line.
    Empty,
    Uci,
    SetOption(SetOption),
    IsReady,
    NewGame,
    Position(Option<PositionPlan>),
    Go(GoParams),
    Quit,
    Stop,
    PonderHit,
    /// Any other first word: ignored.
    Unknown,
}

/// The command of a line's words, by its first word.
pub open spec fn command_spec(ws: Seq<Seq<char>>) -> UciCommand {
    if ws.len() == 0 {
        UciCommand::Empty
    } else if ws[0] == "uci"@ {
        UciCommand::Uci
    } else if ws[0] == "setoption"@ {
        UciCommand::SetOption(setoption_spec(ws))
    } else if ws[0] == "isready"@ {
        UciCommand::IsReady
    } else if ws[0] == "ucinewgame"@ {
        UciCommand::NewGame
    } else if ws[0] == "position"@ {
        UciCommand::Position(position_spec(ws))
    } else if ws[0] == "go"@ {
        UciCommand::Go(go_params_spec(ws))
    } else if ws[0] == "quit"@ {
        UciCommand::Quit
    } else if ws[0] == "stop"@ {
        UciCommand::Stop
    } else if ws[0] == "ponderhit"@ {
        UciCommand::PonderHit
    } else {
        UciCommand::Unknown
    }
}

/// Reads a line already split into words (see `command_spec`).
pub fn command_of(parts: &[&str]) -> (c: UciCommand)
    ensures
        c == command_spec(words(parts@)),
{
    if parts.len() == 0 {
        return UciCommand::Empty;
    }
    assert(words(parts@)[0] == parts@[0]@);
    let head: &str = parts[0];
    if same_word(head, "uci") {
        UciCommand::Uci
    } else if same_word(head, "setoption") {
        UciCommand::SetOption(handle_setoption(parts))
    } else if same_word(head, "isready") {
        UciCommand::IsReady
    } else if same_word(head, "ucinewgame") {
        UciCommand::NewGame
    } else if same_word(head, "position") {
        UciCommand::Position(handle_position(parts))
    } else if same_word(head, "go") {
        UciCommand::Go(parse_go(parts))
    } else if same_word(head, "quit") {
        UciCommand::Quit
    } else if same_word(head, "stop") {
        UciCommand::Stop
    } else if same_word(head, "ponderhit") {
        UciCommand::PonderHit
    } else {
        UciCommand::Unknown
    }
}

/// Reads a UCI command line: its whitespace-separated words, by the first one.
pub fn handle_command(cmd: &str) -> (c: UciCommand)
    ensures
        c == command_spec(whitespace_words(cmd@)),
{
    let parts: Vec<&str> = split_words(cmd);
    command_of(parts.as_slice())
}

/// `ponderhit`: the opponent played the expected move, so the search's clock starts.
pub fn handle_ponderhit(state: Arc<SearchState>) {
    state.ponder.store(false, Ordering::Relaxed);
}

/// `stop`: running searches stop and report their best move so far.
pub fn handle_stop(state: Arc<SearchState>) {
    state.stop.store(true, Ordering::Relaxed);
}

// ---------------------------------------------------------------------------------------------
// time management
// ---------------------------------------------------------------------------------------------

/// How much of the clock a move may use.
#[derive(PartialEq, Eq, Structural, Clone, Copy, Debug)]
pub enum ClockBudget {
    /// Almost out of time: move at once (a 1 ms ceiling, no target).
    Instant,
    /// A single legal move: no thinking needed (a SINGLE_LEGAL_MOVE_TIME_MS ceiling, no
    /// target).
    Forced,
    /// The base target before it is scaled by the ratio of the two clocks.
    Planned(u32),
}

/// What a `go` command starts.
#[derive(PartialEq, Eq, Structural, Clone, Copy, Debug)]
pub enum GoPlan {
    /// No search: answer `bestmove 0000`.
    NoMove,
    /// Search any depth for this many milliseconds.
    MoveTime(u32),
    /// Search to this depth.
    Depth(u8),
    /// Clock play: own time left less the move overhead, own increment, the opponent's time,
    /// and the budget.
    Clock { time: u32, inc: u32, opp_time: u32, budget: ClockBudget },
}

/// The base move-time target: a TIME_DIVISOR-th of the time left plus
/// INC_FRACTION_NUM/INC_FRACTION_DENOM of the increment.
pub open spec fn base_move_time(time: nat, inc: nat) -> int {
    time / (TIME_DIVISOR as nat) + inc * INC_FRACTION_NUM / INC_FRACTION_DENOM as int
}

/// A `go` command's plan: nothing once the game is over; a movetime wins over everything; a
/// depth alone (no clock words at all) searches to it; both clocks mean clock play, where the
/// side to move's time (less MOVE_OVERHEAD, not below 0) and increment (0 when absent) decide
/// the budget; anything else is answered with no move.
pub open spec fn go_plan_spec(
    p: GoParams,
    in_progress: bool,
    white_to_move: bool,
    legal_moves: usize,
) -> GoPlan {
    if !in_progress {
        GoPlan::NoMove
    } else if p.movetime is Some {
        GoPlan::MoveTime(p.movetime->0)
    } else if p.depth is Some && p.wtime is None && p.btime is None && p.winc is None
        && p.binc is None {
        GoPlan::Depth(p.depth->0)
    } else if p.wtime is Some && p.btime is Some {
        let own: u32 = if white_to_move {
            p.wtime->0
        } else {
            p.btime->0
        };
        let opp: u32 = if white_to_move {
            p.btime->0
        } else {
            p.wtime->0
        };
        let inc_opt: Option<u32> = if white_to_move {
            p.winc
        } else {
            p.binc
        };
        let inc: u32 = match inc_opt {
            Some(i) => i,
            None => 0u32,
        };
        let time: u32 = if own > MOVE_OVERHEAD {
            (own - MOVE_OVERHEAD) as u32
        } else {
            0u32
        };
        let budget = if time <= PANIC_THRESHOLD_MS {
            ClockBudget::Instant
        } else if legal_moves == 1 {
            ClockBudget::Forced
        } else {
            ClockBudget::Planned(base_move_time(time as nat, inc as nat) as u32)
        };
        GoPlan::Clock { time, inc, opp_time: opp, budget }
    } else {
        GoPlan::NoMove
    }
}

/// The inputs on which the plan's arithmetic leaves `u32`: a planned budget whose increment
/// times INC_FRACTION_NUM does not fit.
pub open spec fn go_plan_overflows(
    p: GoParams,
    in_progress: bool,
    white_to_move: bool,
    legal_moves: usize,
) -> bool {
    match go_plan_spec(p, in_progress, white_to_move, legal_moves) {
        GoPlan::Clock { time, inc, opp_time, budget } => budget is Planned && inc
            * INC_FRACTION_NUM > u32::MAX,
        _ => false,
    }
}

/// Plans a `go` command (see `go_plan_spec`) for a game that is `in_progress`, with White to
/// move or not and `legal_moves` legal moves.
pub fn go_plan(p: GoParams, in_progress: bool, white_to_move: bool, legal_moves: usize) -> (r:
    GoPlan)
    requires
        !go_plan_overflows(p, in_progress, white_to_move, legal_moves),
    ensures
        r == go_plan_spec(p, in_progress, white_to_move, legal_moves),
{
    if !in_progress {
        return GoPlan::NoMove;
    }
    match p.movetime {
        Some(mt) => {
            return GoPlan::MoveTime(mt);
        },
        None => {},
    }
    if p.depth.is_some() && p.wtime.is_none() && p.btime.is_none() && p.winc.is_none()
        && p.binc.is_none() {
        return GoPlan::Depth(p.depth.unwrap());
    }
    match (p.wtime, p.btime) {
        (Some(wt), Some(bt)) => {
            let (own, inc, opp): (u32, u32, u32) = if white_to_move {
                (
                    wt,
                    match p.winc {
                        Some(i) => i,
                        None => 0,
                    },
                    bt,
                )
            } else {
                (
                    bt,
                    match p.binc {
                        Some(i) => i,
                        None => 0,
                    },
                    wt,
                )
            };
            let time: u32 = own.saturating_sub(MOVE_OVERHEAD);
            let budget: ClockBudget = if time <= PANIC_THRESHOLD_MS {
                ClockBudget::Instant
            } else if legal_moves == 1 {
                ClockBudget::Forced
            } else {
                ClockBudget::Planned((time / TIME_DIVISOR) + (inc * INC_FRACTION_NUM
                    / INC_FRACTION_DENOM))
            };
            GoPlan::Clock { time, inc, opp_time: opp, budget }
        },
        _ => GoPlan::NoMove,
    }
}

/// Plans a `go` command for any input: `None` exactly where the plan's arithmetic would leave
/// `u32` (see `go_plan_overflows`), the plan otherwise.
pub fn go_plan_checked(p: GoParams, in_progress: bool, white_to_move: bool, legal_moves: usize) -> (r:
    Option<GoPlan>)
    ensures
        go_plan_overflows(p, in_progress, white_to_move, legal_moves) <==> r is None,
        r matches Some(plan) ==> plan == go_plan_spec(p, in_progress, white_to_move, legal_moves),
{
    if in_progress && p.movetime.is_none() && !(p.depth.is_some() && p.wtime.is_none()
        && p.btime.is_none() && p.winc.is_none() && p.binc.is_none()) && p.wtime.is_some()
        && p.btime.is_some() {
        let (own, inc): (u32, u32) = if white_to_move {
            (
                p.wtime.unwrap(),
                match p.winc {
                    Some(i) => i,
                    None => 0,
                },
            )
        } else {
            (
                p.btime.unwrap(),
                match p.binc {
                    Some(i) => i,
                    None => 0,
                },
            )
        };
        let time: u32 = own.saturating_sub(MOVE_OVERHEAD);
        if time > PANIC_THRESHOLD_MS && legal_moves != 1 && inc > u32::MAX / INC_FRACTION_NUM {
            return None;
        }
    }
    Some(go_plan(p, in_progress, white_to_move, legal_moves))
}

/// The same `go` parameters with the two sides' clocks and increments exchanged.
pub open spec fn swap_clocks(p: GoParams) -> GoParams {
    GoParams {
        depth: p.depth,
        movetime: p.movetime,
        wtime: p.btime,
        btime: p.wtime,
        winc: p.binc,
        binc: p.winc,
        ponder: p.ponder,
    }
}

/// Clock planning does not depend on the colours: exchanging the two clocks and the two
/// increments together with the side to move gives the same plan (and overflows on the same
/// inputs). In clock play the plan uses the mover's own clock less MOVE_OVERHEAD, the mover's
/// own increment (0 when it is not given) and the opponent's clock.
pub proof fn law_go_plan_colour_symmetric(
    p: GoParams,
    in_progress: bool,
    white_to_move: bool,
    legal_moves: usize,
)
    ensures
        go_plan_spec(swap_clocks(p), in_progress, !white_to_move, legal_moves) == go_plan_spec(
            p,
            in_progress,
            white_to_move,
            legal_moves,
        ),
        go_plan_overflows(swap_clocks(p), in_progress, !white_to_move, legal_moves)
            == go_plan_overflows(p, in_progress, white_to_move, legal_moves),
        go_plan_spec(p, in_progress, white_to_move, legal_moves) is Clock ==> {
            let plan = go_plan_spec(p, in_progress, white_to_move, legal_moves);
            let own: Option<u32> = if white_to_move {
                p.wtime
            } else {
                p.btime
            };
            let own_inc: Option<u32> = if white_to_move {
                p.winc
            } else {
                p.binc
            };
            &&& p.wtime is Some && p.btime is Some
            &&& plan->inc == (match own_inc {
                Some(i) => i,
                None => 0u32,
            })
            &&& plan->opp_time == (if white_to_move {
                p.btime
            } else {
                p.wtime
            })->0
            &&& plan->time == (if own->0 > MOVE_OVERHEAD {
                own->0 - MOVE_OVERHEAD
            } else {
                0
            })
        },
{
}

/// A `go` parameter with keyword `k`, read from words `ws` as the first `k` followed by a
/// value: `Some(n)` exactly when some word equals `k`, no earlier word does, a word follows it
/// and that word is an unsigned number `n` of at most `max` as `FromStr` reads it.
pub open spec fn keyword_value(ws: Seq<Seq<char>>, k: Seq<char>, max: nat, n: nat) -> bool {
    exists|i: int|
        0 <= i < ws.len() - 1 && ws[i] == k && (forall|j: int| 0 <= j < i ==> ws[j] != k)
            && #[trigger] parse_unsigned_spec(ws[i + 1], max) == Some(n)
}

proof fn lemma_keyword(ws: Seq<Seq<char>>, k: Seq<char>, max: nat)
    ensures
        (go_param(ws, k, max) matches Some(n) ==> keyword_value(ws, k, max, n)),
        (forall|n: nat| #[trigger] keyword_value(ws, k, max, n) ==> go_param(ws, k, max) == Some(n)),
        (forall|j: int| 0 <= j < ws.len() ==> ws[j] != k) ==> go_param(ws, k, max) is None,
{
    lemma_find_word(ws, k, 0);
    if let Some(n) = go_param(ws, k, max) {
        let i = find_word(ws, k, 0)->0;
        assert(parse_unsigned_spec(ws[i + 1], max) == Some(n));
    }
    assert forall|n: nat| #[trigger] keyword_value(ws, k, max, n) implies go_param(ws, k, max)
        == Some(n) by {
        let i: int = choose|i: int|
            0 <= i < ws.len() - 1 && ws[i] == k && (forall|j: int| 0 <= j < i ==> ws[j] != k)
                && #[trigger] parse_unsigned_spec(ws[i + 1], max) == Some(n);
        let f = find_word(ws, k, 0);
        assert(f is Some);
        let i2 = f->0;
        if i2 < i {
            assert(ws[i2] != k);
        }
        if i < i2 {
            assert(ws[i] != k);
        }
    }
}

/// Each `go` parameter is read from its own keyword: when the first word `depth`, `movetime`,
/// `wtime`, `btime`, `winc` or `binc` is followed by an unsigned number that fits the
/// parameter's type (`u8` for depth, `u32` for the others), that number is the parameter;
/// when no word is the keyword the parameter is absent; `ponder` is set exactly when some word
/// is `ponder`.
pub proof fn law_go_params_from_keywords(ws: Seq<Seq<char>>)
    ensures
        ({
            let p = go_params_spec(ws);
            &&& forall|n: nat| #[trigger] keyword_value(ws, "depth"@, 255, n) ==> p.depth == Some(n as u8)
            &&& forall|n: nat| #[trigger] keyword_value(ws, "movetime"@, u32::MAX as nat, n) ==> p.movetime == Some(n as u32)
            &&& forall|n: nat| #[trigger] keyword_value(ws, "wtime"@, u32::MAX as nat, n) ==> p.wtime == Some(n as u32)
            &&& forall|n: nat| #[trigger] keyword_value(ws, "btime"@, u32::MAX as nat, n) ==> p.btime == Some(n as u32)
            &&& forall|n: nat| #[trigger] keyword_value(ws, "winc"@, u32::MAX as nat, n) ==> p.winc == Some(n as u32)
            &&& forall|n: nat| #[trigger] keyword_value(ws, "binc"@, u32::MAX as nat, n) ==> p.binc == Some(n as u32)
            &&& (p.depth matches Some(d) ==> keyword_value(ws, "depth"@, 255, d as nat))
            &&& (p.movetime matches Some(v) ==> keyword_value(ws, "movetime"@, u32::MAX as nat, v as nat))
            &&& (p.wtime matches Some(v) ==> keyword_value(ws, "wtime"@, u32::MAX as nat, v as nat))
            &&& (p.btime matches Some(v) ==> keyword_value(ws, "btime"@, u32::MAX as nat, v as nat))
            &&& (p.winc matches Some(v) ==> keyword_value(ws, "winc"@, u32::MAX as nat, v as nat))
            &&& (p.binc matches Some(v) ==> keyword_value(ws, "binc"@, u32::MAX as nat, v as nat))
            &&& (forall|j: int| 0 <= j < ws.len() ==> ws[j] != "binc"@) ==> p.binc is None
            &&& (forall|j: int| 0 <= j < ws.len() ==> ws[j] != "winc"@) ==> p.winc is None
            &&& (forall|j: int| 0 <= j < ws.len() ==> ws[j] != "wtime"@) ==> p.wtime is None
            &&& (forall|j: int| 0 <= j < ws.len() ==> ws[j] != "btime"@) ==> p.btime is None
            &&& (forall|j: int| 0 <= j < ws.len() ==> ws[j] != "movetime"@) ==> p.movetime is None
            &&& (forall|j: int| 0 <= j < ws.len() ==> ws[j] != "depth"@) ==> p.depth is None
            &&& p.ponder == exists|j: int| 0 <= j < ws.len() && ws[j] == "ponder"@
        }),
{
    lemma_keyword(ws, "depth"@, 255);
    lemma_keyword(ws, "movetime"@, u32::MAX as nat);
    lemma_keyword(ws, "wtime"@, u32::MAX as nat);
    lemma_keyword(ws, "btime"@, u32::MAX as nat);
    lemma_keyword(ws, "winc"@, u32::MAX as nat);
    lemma_keyword(ws, "binc"@, u32::MAX as nat);
    lemma_find_word(ws, "ponder"@, 0);
}

} // verus!
