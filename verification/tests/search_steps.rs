use arrayvec::ArrayVec;
use greenseer::engine::search::{
    deepest_result, front_move, leaf_step, mate_proven, nmp_applies, note_cutoff_move,
    null_move_outcome, null_move_search, ponder_move, probe_node, quiescence_result, rfp_applies,
    rfp_cuts, search_age, skips_move, splice_pv, terminal_score, tt_probe, KillerTable, LeafStep,
    MoveLoop, NullOutcome, RootBest, SearchState, TtProbe, MAX_PV_LEN, TT,
};
use greenseer::engine::utils::{update_tt, TT_EXACT_FLAG, TT_LOWERB_FLAG, TT_UPPERB_FLAG};
use std::sync::atomic::Ordering;

#[test]
fn search_state_starts_idle() {
    let s = SearchState::new();
    assert!(!s.stop.load(Ordering::Relaxed));
    assert!(!s.ponder.load(Ordering::Relaxed));
}

#[test]
fn root_best_starts_from_the_fallback() {
    let b = RootBest::new(42);
    assert_eq!(b.best_move, 42);
    assert_eq!(b.best_score, -i16::MAX);
    assert_eq!(b.best_depth, 0);
    assert!(b.pv.is_empty());
}

#[test]
fn root_publishes_reevaluation_and_improvements_only() {
    let mut b = RootBest::new(10);
    let mut line: ArrayVec<u16, MAX_PV_LEN> = ArrayVec::new();
    line.push(10);
    line.push(11);
    // the incumbent move is re-evaluated: published even at a worse score
    assert!(b.publish_root_move(10, 10, -50, 3, &line));
    assert_eq!((b.best_move, b.best_score, b.best_depth), (10, -50, 3));
    assert_eq!(b.pv.as_slice(), &[10, 11]);
    // another move that does not beat the stored score: nothing changes
    assert!(!b.publish_root_move(12, 10, -60, 3, &line));
    assert_eq!((b.best_move, b.best_score), (10, -50));
    // a better score is published
    line.clear();
    line.push(13);
    assert!(b.publish_root_move(13, 13, 40, 3, &line));
    assert_eq!((b.best_move, b.best_score), (13, 40));
    assert_eq!(b.pv.as_slice(), &[13]);
}

#[test]
fn root_table_hit_keeps_only_its_move() {
    let mut b = RootBest::new(1);
    b.pv.push(1);
    b.pv.push(2);
    b.publish_tt_hit(7, 123, 5);
    assert_eq!((b.best_move, b.best_score, b.best_depth), (7, 123, 5));
    assert_eq!(b.pv.as_slice(), &[7]);
}

#[test]
fn killers_shift_and_ignore_the_root() {
    let mut k = KillerTable::new();
    assert_eq!(k.get(0), [None, None]);
    assert_eq!(k.get(3), [None, None]);
    k.store(0, 5);
    assert_eq!(k.get(0), [None, None]);
    k.store(3, 10);
    assert_eq!(k.get(3), [Some(10), None]);
    k.store(3, 11);
    assert_eq!(k.get(3), [Some(11), Some(10)]);
    // storing the primary again changes nothing
    k.store(3, 11);
    assert_eq!(k.get(3), [Some(11), Some(10)]);
    // the old secondary comes back as primary, the primary shifts down
    k.store(3, 10);
    assert_eq!(k.get(3), [Some(10), Some(11)]);
    // other plies untouched
    assert_eq!(k.get(2), [None, None]);
    assert_eq!(k.get(4), [None, None]);
    k.store(255, 9);
    assert_eq!(k.get(255), [Some(9), None]);
}

#[test]
fn default_killer_table_is_empty() {
    let k = KillerTable::default();
    assert_eq!(k.get(1), [None, None]);
}

#[test]
fn only_quiet_non_checking_cutoff_moves_become_killers() {
    let mut k = KillerTable::new();
    note_cutoff_move(&mut k, 2, 30, true, false);
    assert_eq!(k.get(2), [None, None]);
    note_cutoff_move(&mut k, 2, 30, false, true);
    assert_eq!(k.get(2), [None, None]);
    note_cutoff_move(&mut k, 2, 30, false, false);
    assert_eq!(k.get(2), [Some(30), None]);
}

#[test]
fn finished_games_score_mates_by_distance() {
    assert_eq!(terminal_score(0, false), -10000);
    assert_eq!(terminal_score(5, false), -9995);
    assert_eq!(terminal_score(5, true), 0);
    // a mate found nearer the root is worse for the mated side
    assert!(terminal_score(2, false) < terminal_score(4, false));
}

#[test]
fn table_probe_decisions() {
    let exact = Some((9u64, 300i16, 5u8, TT_EXACT_FLAG, 77u16, 1u8));
    assert_eq!(tt_probe(exact, false, 4, -100, 100, 3), TtProbe::Cutoff { score: 300, mv: 77 });
    assert_eq!(tt_probe(exact, false, 5, -100, 100, 3), TtProbe::Cutoff { score: 300, mv: 77 });
    // not searched deep enough: only the move is used
    assert_eq!(tt_probe(exact, false, 6, -100, 100, 3), TtProbe::Search { tt_move: Some(77) });
    // skipped table
    assert_eq!(tt_probe(exact, true, 4, -100, 100, 3), TtProbe::Search { tt_move: None });
    assert_eq!(tt_probe(None, false, 4, -100, 100, 3), TtProbe::Search { tt_move: None });

    let lower = Some((9u64, 300i16, 5u8, TT_LOWERB_FLAG, 77u16, 1u8));
    assert_eq!(tt_probe(lower, false, 4, 0, 250, 3), TtProbe::Cutoff { score: 300, mv: 77 });
    assert_eq!(tt_probe(lower, false, 4, 0, 350, 3), TtProbe::Search { tt_move: Some(77) });

    let upper = Some((9u64, 300i16, 5u8, TT_UPPERB_FLAG, 77u16, 1u8));
    assert_eq!(tt_probe(upper, false, 4, 310, 400, 3), TtProbe::Cutoff { score: 300, mv: 77 });
    assert_eq!(tt_probe(upper, false, 4, 200, 400, 3), TtProbe::Search { tt_move: Some(77) });

    // a stored mate score is read back relative to the root
    let mate = Some((9u64, 9510i16, 5u8, TT_EXACT_FLAG, 8u16, 1u8));
    assert_eq!(tt_probe(mate, false, 4, -100, 100, 10), TtProbe::Cutoff { score: 9500, mv: 8 });
    let mated = Some((9u64, -9510i16, 5u8, TT_EXACT_FLAG, 8u16, 1u8));
    assert_eq!(tt_probe(mated, false, 4, -100, 100, 10), TtProbe::Cutoff { score: -9500, mv: 8 });
}

#[test]
fn probing_publishes_root_hits_and_skips_repetitions() {
    let mut tt = TT::new(1);
    update_tt(&mut tt, 0xABCDEF, 250, 6, TT_EXACT_FLAG, 321, 0);
    let mut best = RootBest::new(1);
    let r = probe_node(&mut tt, 0xABCDEF, 2, 4, -i16::MAX, i16::MAX, 0, &mut best);
    assert_eq!(r, TtProbe::Search { tt_move: None });
    assert_eq!(best.best_move, 1);
    let r = probe_node(&mut tt, 0xABCDEF, 1, 4, -i16::MAX, i16::MAX, 3, &mut best);
    assert_eq!(r, TtProbe::Cutoff { score: 250, mv: 321 });
    assert_eq!(best.best_move, 1);
    let r = probe_node(&mut tt, 0xABCDEF, 0, 4, -i16::MAX, i16::MAX, 0, &mut best);
    assert_eq!(r, TtProbe::Cutoff { score: 250, mv: 321 });
    assert_eq!((best.best_move, best.best_score, best.best_depth), (321, 250, 4));
    assert_eq!(best.pv.as_slice(), &[321]);
    // another key
    let r = probe_node(&mut tt, 0x123, 0, 4, -i16::MAX, i16::MAX, 0, &mut best);
    assert_eq!(r, TtProbe::Search { tt_move: None });
}

#[test]
fn depth_zero_decisions() {
    assert_eq!(leaf_step(true, 0, 0, 3), LeafStep::Extend);
    assert_eq!(leaf_step(false, 50, 40, 3), LeafStep::StandPat(50));
    assert_eq!(leaf_step(false, 40, 40, 3), LeafStep::StandPat(40));
    assert_eq!(leaf_step(false, 30, 40, 0), LeafStep::StandPat(30));
    assert_eq!(leaf_step(false, 30, 40, 3), LeafStep::Quiesce(30));
}

#[test]
fn stand_pat_is_a_floor() {
    assert_eq!(quiescence_result(100, 7, 50), (100, 7));
    assert_eq!(quiescence_result(40, 7, 50), (50, 0));
    assert_eq!(quiescence_result(50, 7, 50), (50, 0));
}

#[test]
fn reverse_futility_pruning() {
    assert!(rfp_applies(6, 0, false));
    assert!(!rfp_applies(7, 0, false));
    assert!(!rfp_applies(3, -9000, false));
    assert!(rfp_applies(3, -8999, false));
    assert!(!rfp_applies(3, 0, true));
    // margin at depth 2 is 120 + 2 * 150 = 420
    assert!(!rfp_cuts(500, 2, 150));
    assert!(rfp_cuts(570, 2, 150));
    assert!(rfp_cuts(600, 2, 150));
    // far below: no wrap-around
    assert!(!rfp_cuts(-32000, 6, -32768));
}

#[test]
fn null_move_pruning() {
    assert!(nmp_applies(true, 3, 0, true, false));
    assert!(!nmp_applies(true, 2, 0, true, false));
    assert!(!nmp_applies(true, 3, 9000, true, false));
    assert!(!nmp_applies(true, 3, 0, false, false));
    assert!(!nmp_applies(true, 3, 0, true, true));
    assert!(!nmp_applies(false, 3, 0, true, false));
    assert_eq!(null_move_search(5, 100), (2, -100, -99));
    assert_eq!(null_move_search(3, -50), (0, 50, 51));
    assert_eq!(null_move_outcome(false, 0, 0), NullOutcome::Abort);
    assert_eq!(null_move_outcome(true, -200, 150), NullOutcome::Cutoff(200));
    assert_eq!(null_move_outcome(true, -150, 150), NullOutcome::Cutoff(150));
    assert_eq!(null_move_outcome(true, -100, 150), NullOutcome::Continue);
}

#[test]
fn move_to_front_and_quiescence_filter() {
    assert_eq!(front_move(0, 12, Some(5)), Some(12));
    assert_eq!(front_move(3, 12, Some(5)), Some(5));
    assert_eq!(front_move(3, 12, None), None);
    assert!(skips_move(true, 0));
    assert!(skips_move(true, 2));
    assert!(!skips_move(true, 1));
    assert!(!skips_move(true, 3));
    assert!(!skips_move(false, 0));
}

#[test]
fn move_loop_windows_and_cutoff() {
    let mut ml = MoveLoop::new(-100, 100, 7);
    assert_eq!(ml.child_window(true, false), (-100, 100));
    assert!(ml.record(7, -50));
    assert_eq!((ml.alpha(), ml.best_eval(), ml.best_move(), ml.cutoff()), (-50, -50, 7, false));
    // null window for later moves, full window in quiescence
    assert_eq!(ml.child_window(false, false), (49, 50));
    assert_eq!(ml.child_window(false, true), (-100, 50));
    assert!(ml.needs_research(-60));
    assert!(!ml.needs_research(50));
    assert!(!ml.needs_research(60));
    assert!(!ml.record(8, -70));
    assert_eq!((ml.alpha(), ml.best_eval(), ml.best_move()), (-50, -50, 7));
    // an equal score does not replace the best move
    assert!(!ml.record(9, -50));
    assert_eq!(ml.best_move(), 7);
    assert!(ml.record(10, 120));
    assert!(ml.cutoff());
    assert_eq!((ml.alpha(), ml.best_eval(), ml.best_move()), (120, 120, 10));
    assert_eq!(ml.tt_flag(), TT_LOWERB_FLAG);
}

#[test]
fn move_loop_flags() {
    let mut fail_low = MoveLoop::new(0, 100, 3);
    fail_low.record(3, -20);
    fail_low.record(4, 0);
    assert_eq!(fail_low.alpha(), 0);
    assert_eq!(fail_low.tt_flag(), TT_UPPERB_FLAG);

    let mut exact = MoveLoop::new(0, 100, 3);
    exact.record(3, 50);
    assert_eq!(exact.tt_flag(), TT_EXACT_FLAG);
    assert_eq!(exact.beta(), 100);

    let untouched = MoveLoop::new(0, 100, 3);
    assert_eq!(untouched.best_eval(), -i16::MAX);
    assert_eq!(untouched.best_move(), 3);
    assert_eq!(untouched.tt_flag(), TT_UPPERB_FLAG);
}

#[test]
fn principal_variation_is_spliced() {
    let mut pv: ArrayVec<u16, MAX_PV_LEN> = ArrayVec::new();
    pv.push(99);
    let mut child: ArrayVec<u16, MAX_PV_LEN> = ArrayVec::new();
    child.push(2);
    child.push(3);
    splice_pv(&mut pv, 1, &child);
    assert_eq!(pv.as_slice(), &[1, 2, 3]);
    splice_pv(&mut pv, 4, &ArrayVec::new());
    assert_eq!(pv.as_slice(), &[4]);
}

#[test]
fn iterative_deepening_decisions() {
    assert_eq!(search_age(0), 0);
    assert_eq!(search_age(9), 4);
    assert_eq!(search_age(600), 44);
    assert!(mate_proven(9997, 3));
    assert!(!mate_proven(9997, 2));
    assert!(mate_proven(-9996, 4));
    assert!(!mate_proven(9000, 255));
    assert!(!mate_proven(500, 10));
}

#[test]
fn deepest_result_is_the_last_of_the_deepest() {
    assert_eq!(deepest_result(&vec![]), None);
    assert_eq!(deepest_result(&vec![4]), Some(0));
    assert_eq!(deepest_result(&vec![3, 5, 5, 2]), Some(2));
    assert_eq!(deepest_result(&vec![7, 5, 6]), Some(0));
}

#[test]
fn ponder_suggestion_is_the_second_move_of_the_line() {
    let mut b = RootBest::new(10);
    b.pv.push(10);
    assert_eq!(ponder_move(&b, true), None);
    b.pv.push(20);
    assert_eq!(ponder_move(&b, true), Some(20));
    assert_eq!(ponder_move(&b, false), None);
}
