use greenseer::engine::board::Board;
use greenseer::engine::utils::{
    backward_pawn_mask, generate_adjacent_file_masks, generate_backward_pawn_masks,
    generate_king_zone_masks, generate_king_zone_pawn_attacker_masks, generate_passed_pawns_masks,
    has_pieces, is_capture, king_file_weakness, king_zone_mask, king_zone_pawn_attacker_mask,
    passed_pawn_mask, pawn_attacks, pawn_backward, pawn_isolated, pawn_passed,
    pawn_shield_score, shield_file_tier, square_file, square_rank, FileCover,
};

fn sq(i: u32) -> u64 {
    1u64 << i
}

fn pawns_only(white_pawns: u64, black_pawns: u64) -> Board {
    Board {
        pawns: white_pawns | black_pawns,
        knights: 0,
        bishops: 0,
        rooks: 0,
        queens: 0,
        kings: sq(4) | sq(60),
        white_pieces: white_pawns | sq(4),
        black_pieces: black_pawns | sq(60),
        side_to_move: true,
        fullmove_number: 1,
        en_passant: 0,
        zobrist_hash: 0,
        attack_sets: vec![0u64; 512],
    }
}

#[test]
fn squares_have_one_based_files_and_ranks() {
    assert_eq!((square_file(0), square_rank(0)), (1, 1));
    assert_eq!((square_file(28), square_rank(28)), (5, 4));
    assert_eq!((square_file(63), square_rank(63)), (8, 8));
}

#[test]
fn passed_pawn_masks() {
    // White pawn e2: files d-f, ranks 3-8.
    assert_eq!(passed_pawn_mask(true, 12), 0x3838383838380000);
    // White pawn a7: files a-b, rank 8.
    assert_eq!(passed_pawn_mask(true, 48), 0x0300000000000000);
    // Black pawn e7: files d-f, ranks 2-6.
    assert_eq!(passed_pawn_mask(false, 52), 0x0000383838383800);
    let all = generate_passed_pawns_masks();
    assert_eq!(all[1][12], passed_pawn_mask(true, 12));
    assert_eq!(all[0][52], passed_pawn_mask(false, 52));
}

#[test]
fn adjacent_and_backward_masks() {
    let adj = generate_adjacent_file_masks();
    assert_eq!(adj[0], 0x0202020202020202);
    assert_eq!(adj[3], 0x1414141414141414);
    assert_eq!(adj[7], 0x4040404040404040);
    // White pawn d3: files c and e, ranks 1-3.
    assert_eq!(backward_pawn_mask(true, 19), 0x141414);
    // Black pawn d6: files c and e, ranks 6-8.
    assert_eq!(backward_pawn_mask(false, 43), 0x1414140000000000);
    let all = generate_backward_pawn_masks();
    assert_eq!(all[1][19], 0x141414);
    assert_eq!(all[0][43], 0x1414140000000000);
}

#[test]
fn king_zones() {
    assert_eq!(king_zone_mask(0), 0x303);
    assert_eq!(king_zone_mask(27), 0x1C1C1C0000);
    assert_eq!(king_zone_mask(63), 0xC0C0000000000000);
    assert_eq!(generate_king_zone_masks()[27], 0x1C1C1C0000);
}

#[test]
fn pawn_attack_tables() {
    assert_eq!(pawn_attacks(true, 28), sq(35) | sq(37));
    assert_eq!(pawn_attacks(true, 24), sq(33));
    assert_eq!(pawn_attacks(true, 31), sq(38));
    assert_eq!(pawn_attacks(false, 35), sq(26) | sq(28));
    assert_eq!(pawn_attacks(true, 60), 0);
}

#[test]
fn king_zone_pawn_attackers() {
    // Zone of a8 (a7 b7 a8 b8): White pawns on a6, b6, c6, a7, b7, c7 would attack it.
    assert_eq!(
        king_zone_pawn_attacker_mask(false, 56),
        sq(40) | sq(41) | sq(42) | sq(48) | sq(49) | sq(50)
    );
    // Zone of h1 (g1 h1 g2 h2): Black pawns on f2, g2, h2, f3, g3, h3 would attack it.
    assert_eq!(
        king_zone_pawn_attacker_mask(true, 7),
        sq(13) | sq(14) | sq(15) | sq(21) | sq(22) | sq(23)
    );
    let all = generate_king_zone_pawn_attacker_masks();
    assert_eq!(all[0][56], king_zone_pawn_attacker_mask(false, 56));
    assert_eq!(all[1][7], king_zone_pawn_attacker_mask(true, 7));
}

#[test]
fn passed_isolated_backward() {
    // White pawn e5 against a Black pawn d7: not passed.
    let b = pawns_only(sq(36), sq(51));
    assert!(!pawn_passed(36, true, &b));
    // against a Black pawn c7 instead: passed
    let b = pawns_only(sq(36), sq(50));
    assert!(pawn_passed(36, true, &b));
    // Black pawn c7 against White e5: passed (files b-d hold no White pawn)
    assert!(pawn_passed(50, false, &b));

    // White pawns a2 and c2 are isolated; with b3 neither is.
    let b = pawns_only(sq(8) | sq(10), 0);
    assert!(pawn_isolated(8, true, &b));
    assert!(pawn_isolated(10, true, &b));
    let b = pawns_only(sq(8) | sq(10) | sq(17), 0);
    assert!(!pawn_isolated(8, true, &b));
    assert!(!pawn_isolated(10, true, &b));

    // White pawn d3 with e4 ahead of it, Black pawn c5 guarding d4: backward.
    let b = pawns_only(sq(19) | sq(28), sq(34));
    assert!(pawn_backward(19, true, &b));
    // without the guard: not backward
    let b = pawns_only(sq(19) | sq(28), 0);
    assert!(!pawn_backward(19, true, &b));
    // a supporting pawn on e2: not backward
    let b = pawns_only(sq(19) | sq(28) | sq(12), sq(34));
    assert!(!pawn_backward(19, true, &b));
}

#[test]
fn capture_flags() {
    for f in [1u8, 3, 8, 9, 10, 11] {
        assert!(is_capture(f));
    }
    for f in [0u8, 2, 4, 5, 6, 7, 12, 255] {
        assert!(!is_capture(f));
    }
}

#[test]
fn pieces_besides_pawns() {
    let mut b = pawns_only(sq(8), sq(48));
    assert!(!has_pieces(&b));
    b.knights = sq(1);
    b.white_pieces |= sq(1);
    assert!(has_pieces(&b));
    b.side_to_move = false;
    assert!(!has_pieces(&b));
    b.rooks = sq(63);
    b.black_pieces |= sq(63);
    assert!(has_pieces(&b));
}

#[test]
fn pawn_shield() {
    // White king g1 with pawns f2 g2 h3: two pawns one rank ahead (12 each), one two ranks
    // ahead (6).
    let b = pawns_only(sq(13) | sq(14) | sq(23), 0);
    assert_eq!(pawn_shield_score(6, true, &b), 30);
    // king on the h-file: the file beyond the board counts for nothing
    assert_eq!(pawn_shield_score(7, true, &b), 18);
    assert_eq!(shield_file_tier(sq(14), 1, true), 0);
    assert_eq!(shield_file_tier(sq(22), 1, true), 1);
    assert_eq!(shield_file_tier(sq(30), 1, true), 2);
    assert_eq!(shield_file_tier(0, 8, true), 2);
    // Black king g8 with pawns g7 and h6
    let b = pawns_only(0, sq(54) | sq(47));
    assert_eq!(pawn_shield_score(62, false, &b), 18);
}

#[test]
fn king_file_cover() {
    // White king g1; f-file open, g-file only a Black pawn, h-file a White pawn.
    let b = pawns_only(sq(15), sq(54));
    assert_eq!(
        king_file_weakness(6, true, &b),
        [FileCover::Open, FileCover::SemiOpen, FileCover::Covered]
    );
    // king on the h-file: the file beyond the board counts as covered
    assert_eq!(
        king_file_weakness(7, true, &b),
        [FileCover::SemiOpen, FileCover::Covered, FileCover::Covered]
    );
}
