use greenseer::engine::search::SearchState;
use greenseer::evaluate::evaluate;
use std::sync::atomic::Ordering;
use std::sync::Arc;
use greenseer::uci::{
    command_of, go_plan, go_plan_checked, handle_command, handle_ponderhit, handle_position,
    handle_setoption, handle_stop,
    parse_go, parse_go_param, parse_unsigned, position_of, same_word, split_words, ClockBudget,
    GoParams, GoPlan, PositionPlan, SetOption, UciCommand,
};

fn no_params() -> GoParams {
    GoParams { depth: None, movetime: None, wtime: None, btime: None, winc: None, binc: None, ponder: false }
}

#[test]
fn unsigned_numbers_parse_as_from_str_does() {
    assert_eq!(parse_unsigned("42", 255), Some(42));
    assert_eq!(parse_unsigned("+7", 255), Some(7));
    assert_eq!(parse_unsigned("007", 255), Some(7));
    assert_eq!(parse_unsigned("255", 255), Some(255));
    assert_eq!(parse_unsigned("256", 255), None);
    assert_eq!(parse_unsigned("", 255), None);
    assert_eq!(parse_unsigned("+", 255), None);
    assert_eq!(parse_unsigned("-1", 255), None);
    assert_eq!(parse_unsigned("++1", 255), None);
    assert_eq!(parse_unsigned("4x", 255), None);
    assert_eq!(parse_unsigned(" 4", 255), None);
    assert_eq!(parse_unsigned("4294967295", u32::MAX as u64), Some(4294967295));
    assert_eq!(parse_unsigned("4294967296", u32::MAX as u64), None);
    assert_eq!(parse_unsigned("99999999999999999999999", u64::MAX), None);
    assert_eq!(parse_unsigned("18446744073709551615", u64::MAX), Some(u64::MAX));
    // agrees with the standard library on these
    for s in ["0", "12", "+3", "-3", "", "300", "1e3", "٣"] {
        assert_eq!(parse_unsigned(s, 255).map(|v| v as u8), s.parse::<u8>().ok());
    }
}

#[test]
fn words_and_positions() {
    assert!(same_word("go", "go"));
    assert!(!same_word("go", "gone"));
    assert!(!same_word("Go", "go"));
    let parts = split_words("  go   depth\t5 \n");
    assert_eq!(parts, vec!["go", "depth", "5"]);
    assert_eq!(split_words("a\u{3000}b\u{a0}c\u{85}\u{2028}d"), vec!["a", "b", "c", "d"]);
    assert_eq!(split_words("a\u{200b}b"), vec!["a\u{200b}b"]);
    assert_eq!(position_of(&parts, "depth"), Some(1));
    assert_eq!(position_of(&parts, "movetime"), None);
    assert_eq!(parse_go_param(&parts, "depth", 255), Some(5));
    assert_eq!(parse_go_param(&["go", "depth"], "depth", 255), None);
    assert_eq!(parse_go_param(&["go", "depth", "300"], "depth", 255), None);
    // the first occurrence counts
    assert_eq!(parse_go_param(&["go", "depth", "x", "depth", "4"], "depth", 255), None);
}

#[test]
fn simple_commands() {
    assert_eq!(handle_command(""), UciCommand::Empty);
    assert_eq!(handle_command("   "), UciCommand::Empty);
    assert_eq!(handle_command("uci"), UciCommand::Uci);
    assert_eq!(handle_command("  isready  "), UciCommand::IsReady);
    assert_eq!(handle_command("ucinewgame"), UciCommand::NewGame);
    assert_eq!(handle_command("quit"), UciCommand::Quit);
    assert_eq!(handle_command("stop"), UciCommand::Stop);
    assert_eq!(handle_command("ponderhit"), UciCommand::PonderHit);
    assert_eq!(handle_command("xyzzy uci"), UciCommand::Unknown);
    assert_eq!(command_of(&["isready", "now"]), UciCommand::IsReady);
}

#[test]
fn setoption_commands() {
    assert_eq!(handle_command("setoption name Hash value 64"), UciCommand::SetOption(SetOption::Hash(64)));
    assert_eq!(handle_setoption(&["setoption", "name", "Threads", "value", "0"]), SetOption::Threads(1));
    assert_eq!(handle_setoption(&["setoption", "name", "Threads", "value", "8"]), SetOption::Threads(8));
    assert_eq!(handle_setoption(&["setoption", "name", "Ponder", "value", "true"]), SetOption::Ponder(true));
    assert_eq!(handle_setoption(&["setoption", "name", "Ponder", "value", "false"]), SetOption::Ponder(false));
    assert_eq!(handle_setoption(&["setoption", "name", "Ponder", "value", "TRUE"]), SetOption::Ponder(false));
    assert_eq!(handle_setoption(&["setoption", "name", "Hash", "value", "abc"]), SetOption::Ignored);
    assert_eq!(handle_setoption(&["setoption", "name", "Foo", "value", "1"]), SetOption::Ignored);
    assert_eq!(handle_setoption(&["setoption", "name", "Hash", "value"]), SetOption::Ignored);
    assert_eq!(handle_setoption(&["setoption", "id", "Hash", "value", "1"]), SetOption::Ignored);
}

#[test]
fn position_commands() {
    assert_eq!(
        handle_command("position startpos moves e2e4 e7e5"),
        UciCommand::Position(Some(PositionPlan { fen_end: None, moves_from: Some(3) }))
    );
    assert_eq!(
        handle_position(&["position", "startpos"]),
        Some(PositionPlan { fen_end: None, moves_from: None })
    );
    assert_eq!(
        handle_command("position fen k7/7P/8/8/8/8/8/K7 w - - 0 1"),
        UciCommand::Position(Some(PositionPlan { fen_end: Some(8), moves_from: None }))
    );
    assert_eq!(
        handle_position(&["position", "fen", "k7/8/8/8/8/8/8/K7", "w", "moves", "a1a2"]),
        Some(PositionPlan { fen_end: Some(6), moves_from: Some(5) })
    );
    assert_eq!(handle_position(&["position", "fen"]), Some(PositionPlan { fen_end: Some(2), moves_from: None }));
    assert_eq!(handle_position(&["position"]), None);
    assert_eq!(handle_position(&["position", "somewhere"]), None);
}

#[test]
fn go_parameters() {
    let p = parse_go(&["go", "wtime", "1000", "btime", "2000", "winc", "10", "ponder"]);
    assert_eq!(
        p,
        GoParams { depth: None, movetime: None, wtime: Some(1000), btime: Some(2000), winc: Some(10), binc: None, ponder: true }
    );
    assert_eq!(handle_command("go depth 5"), UciCommand::Go(GoParams { depth: Some(5), ..no_params() }));
    assert_eq!(handle_command("go depth 256"), UciCommand::Go(no_params()));
    assert_eq!(handle_command("go movetime 500"), UciCommand::Go(GoParams { movetime: Some(500), ..no_params() }));
}

#[test]
fn go_plans() {
    let mt = GoParams { movetime: Some(500), depth: Some(3), ..no_params() };
    assert_eq!(go_plan(mt, true, true, 20), GoPlan::MoveTime(500));
    assert_eq!(go_plan(mt, false, true, 20), GoPlan::NoMove);
    let d = GoParams { depth: Some(5), ..no_params() };
    assert_eq!(go_plan(d, true, true, 20), GoPlan::Depth(5));
    // a depth with only one clock is answered with no move
    let half = GoParams { depth: Some(5), wtime: Some(1000), ..no_params() };
    assert_eq!(go_plan(half, true, true, 20), GoPlan::NoMove);
    assert_eq!(go_plan(no_params(), true, true, 20), GoPlan::NoMove);

    let clock = GoParams { wtime: Some(60000), btime: Some(30000), winc: Some(1000), ..no_params() };
    // 59980 / 20 + 1000 * 3 / 4 = 2999 + 750
    assert_eq!(
        go_plan(clock, true, true, 20),
        GoPlan::Clock { time: 59980, inc: 1000, opp_time: 30000, budget: ClockBudget::Planned(3749) }
    );
    // Black to move: its own clock, no increment given
    assert_eq!(
        go_plan(clock, true, false, 20),
        GoPlan::Clock { time: 29980, inc: 0, opp_time: 60000, budget: ClockBudget::Planned(1499) }
    );
    assert_eq!(
        go_plan(clock, true, true, 1),
        GoPlan::Clock { time: 59980, inc: 1000, opp_time: 30000, budget: ClockBudget::Forced }
    );
    let short = GoParams { wtime: Some(70), btime: Some(30000), ..no_params() };
    assert_eq!(
        go_plan(short, true, true, 20),
        GoPlan::Clock { time: 50, inc: 0, opp_time: 30000, budget: ClockBudget::Instant }
    );
    let empty = GoParams { wtime: Some(10), btime: Some(30000), ..no_params() };
    assert_eq!(
        go_plan(empty, true, true, 20),
        GoPlan::Clock { time: 0, inc: 0, opp_time: 30000, budget: ClockBudget::Instant }
    );
}

#[test]
fn go_plan_reports_an_increment_too_large_to_budget() {
    let huge = GoParams { wtime: Some(60000), btime: Some(60000), winc: Some(2_000_000_000), ..no_params() };
    assert_eq!(go_plan_checked(huge, true, true, 20), None);
    // not needed when the move is forced or the clock is nearly out
    assert!(go_plan_checked(huge, true, true, 1).is_some());
    // Black's increment is not used with White to move
    let black_huge = GoParams { wtime: Some(60000), btime: Some(60000), binc: Some(2_000_000_000), ..no_params() };
    assert_eq!(
        go_plan_checked(black_huge, true, true, 20),
        Some(GoPlan::Clock { time: 59980, inc: 0, opp_time: 60000, budget: ClockBudget::Planned(2999) })
    );
}

#[test]
fn random_mover_picks_a_legal_move() {
    let moves = vec![5u16, 9, 13];
    for _ in 0..50 {
        assert!(moves.contains(&evaluate(&moves)));
    }
    assert_eq!(evaluate(&vec![77u16]), 77);
}

#[test]
fn stop_and_ponderhit_set_the_shared_flags() {
    let state = Arc::new(SearchState::new());
    state.ponder.store(true, Ordering::Relaxed);
    handle_ponderhit(Arc::clone(&state));
    assert!(!state.ponder.load(Ordering::Relaxed));
    handle_stop(Arc::clone(&state));
    assert!(state.stop.load(Ordering::Relaxed));
}
