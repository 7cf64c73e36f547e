use greenseer::engine::search::TT;
use greenseer::engine::utils::{
    decode_tt_entry, encode_tt_entry, entry_for_key, from_tt_score, relevance_score, retrieve_tt,
    retrieve_tt_or_none, to_tt_score, tt_should_replace, update_tt, TT_EXACT_FLAG, TT_LOWERB_FLAG,
    TT_UPPERB_FLAG,
};
use std::sync::Arc;

#[test]
fn entries_decode_to_what_was_encoded() {
    let cases: [(i16, u8, u8, u16, u8); 5] = [
        (0, 0, 0, 0, 0),
        (-32767, 63, 2, 0xffff, 255),
        (1234, 12, 1, 0x1a2b, 7),
        (-5, 1, 0, 42, 128),
        (32767, 40, 3, 1, 1),
    ];
    for (score, depth, flag, mv, age) in cases {
        assert_eq!(decode_tt_entry(encode_tt_entry(score, depth, flag, mv, age)), (score, depth, flag, mv, age));
    }
}

#[test]
fn entry_layout() {
    assert_eq!(encode_tt_entry(1, 2, 1, 3, 4), (1u64 << 32) | (2 << 26) | (1 << 24) | (3 << 8) | 4);
    assert_eq!(encode_tt_entry(-1, 0, 0, 0, 0), 0xffffu64 << 32);
    assert_eq!(decode_tt_entry(0xffff_0000_0000_0000 | (0x8000u64 << 32)), (i16::MIN, 0, 0, 0, 0));
}

#[test]
fn mate_scores_are_stored_relative_to_the_node() {
    assert_eq!(to_tt_score(9500, 3), 9503);
    assert_eq!(to_tt_score(-9500, 3), -9503);
    assert_eq!(to_tt_score(9000, 3), 9000);
    assert_eq!(to_tt_score(100, 3), 100);
    assert_eq!(from_tt_score(9503, 3), 9500);
    assert_eq!(from_tt_score(-9503, 3), -9500);
    assert_eq!(from_tt_score(-9000, 3), -9000);
    for (score, ply) in [(9990i16, 7u8), (-9990, 7), (0, 200), (9001, 255)] {
        assert_eq!(from_tt_score(to_tt_score(score, ply), ply), score);
    }
}

#[test]
fn relevance_penalizes_staleness() {
    assert_eq!(relevance_score(10, 5, 5), 10);
    assert_eq!(relevance_score(10, 4, 5), 8);
    // ages wrap at 256
    assert_eq!(relevance_score(10, 255, 1), 6);
    assert_eq!(relevance_score(0, 6, 5), -510);
}

#[test]
fn replacement_policy() {
    let existing = encode_tt_entry(0, 10, TT_LOWERB_FLAG, 0, 5);
    assert!(tt_should_replace(existing, 11, TT_LOWERB_FLAG, 5));
    assert!(tt_should_replace(existing, 10, TT_EXACT_FLAG, 5));
    assert!(!tt_should_replace(existing, 10, TT_LOWERB_FLAG, 5));
    assert!(!tt_should_replace(existing, 9, TT_EXACT_FLAG, 5));
    // two moves stale: relevance 10 - 2 * 2 = 6
    assert!(tt_should_replace(existing, 7, TT_UPPERB_FLAG, 7));
    assert!(!tt_should_replace(existing, 6, TT_UPPERB_FLAG, 7));
    let exact = encode_tt_entry(0, 10, TT_EXACT_FLAG, 0, 5);
    assert!(!tt_should_replace(exact, 10, TT_EXACT_FLAG, 5));
}

#[test]
fn new_table_has_the_requested_size() {
    assert_eq!(TT::new(1).entries.len(), 65536);
    assert_eq!(TT::new(2).entries.len(), 131072);
    assert_eq!(TT::new(0).entries.len(), 0);
}

#[test]
fn stored_entries_read_back() {
    let mut tt = TT::new(1);
    assert_eq!(retrieve_tt_or_none(&mut tt, 0xDEAD_BEEF), None);
    update_tt(&mut tt, 0xDEAD_BEEF, 250, 7, TT_EXACT_FLAG, 1234, 3);
    assert_eq!(retrieve_tt_or_none(&mut tt, 0xDEAD_BEEF), Some((0xDEAD_BEEF, 250, 7, 0, 1234, 3)));
    assert_eq!(retrieve_tt(&mut tt, 0xDEAD_BEEF), (0xDEAD_BEEF, 250, 7, 0, 1234, 3));
    // a different key sharing the slot is no hit
    assert_eq!(retrieve_tt_or_none(&mut tt, 0xDEAD_BEEF + 65536), None);
    assert_eq!(retrieve_tt(&mut tt, 0xDEAD_BEEF + 65536).0, 0xDEAD_BEEF);
}

#[test]
fn shallower_entries_do_not_overwrite() {
    let mut tt = TT::new(1);
    update_tt(&mut tt, 77, -40, 7, TT_UPPERB_FLAG, 5, 3);
    update_tt(&mut tt, 77, 90, 3, TT_LOWERB_FLAG, 6, 3);
    assert_eq!(retrieve_tt_or_none(&mut tt, 77), Some((77, -40, 7, TT_UPPERB_FLAG, 5, 3)));
    update_tt(&mut tt, 77, 90, 8, TT_LOWERB_FLAG, 6, 3);
    assert_eq!(retrieve_tt_or_none(&mut tt, 77), Some((77, 90, 8, TT_LOWERB_FLAG, 6, 3)));
}

#[test]
fn clear_empties_every_slot() {
    let mut tt = TT::new(1);
    update_tt(&mut tt, 77, -40, 7, TT_UPPERB_FLAG, 5, 3);
    tt.clear();
    assert_eq!(retrieve_tt_or_none(&mut tt, 77), None);
    assert_eq!(retrieve_tt(&mut tt, 77), (0, 0, 0, 0, 0, 0));
}

#[test]
fn clones_share_the_same_entries() {
    let tt = TT::new(1);
    let mut tt_a = tt.clone();
    let mut tt_b = tt.clone();
    assert!(Arc::ptr_eq(&tt_a.entries, &tt_b.entries));
    update_tt(&mut tt_a, 5, 11, 2, TT_EXACT_FLAG, 3, 0);
    assert_eq!(retrieve_tt_or_none(&mut tt_b, 5), Some((5, 11, 2, TT_EXACT_FLAG, 3, 0)));
    tt_b.clear();
    assert_eq!(retrieve_tt_or_none(&mut tt_a, 5), None);
}

#[test]
fn a_slot_read_is_a_hit_only_for_its_own_key() {
    let e = (42u64, 7i16, 3u8, TT_EXACT_FLAG, 99u16, 1u8);
    assert_eq!(entry_for_key(e, 42), Some(e));
    assert_eq!(entry_for_key(e, 43), None);
}
