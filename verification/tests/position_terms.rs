use arrayvec::ArrayVec;
use greenseer::engine::board::Board;
use greenseer::engine::eval::{
    bb_to_posmod, can_score, count_material, material_fits, positional_terms, relative_score,
    FILE_MASK,
    RANK_MASK,
};
use greenseer::engine::ordering::{reorder_moves, MoveInfo};
use greenseer::engine::utils::{king_zone_mask, FileCover};

fn sq(i: u32) -> u64 {
    1u64 << i
}

fn mi(from: u8, to: u8, flag: u8, gives_check: bool) -> MoveInfo {
    MoveInfo { from, to, flag, gives_check }
}

fn board(
    pawns: u64,
    knights: u64,
    bishops: u64,
    rooks: u64,
    queens: u64,
    kings: u64,
    white: u64,
    black: u64,
) -> Board {
    Board {
        pawns,
        knights,
        bishops,
        rooks,
        queens,
        kings,
        white_pieces: white,
        black_pieces: black,
        side_to_move: true,
        fullmove_number: 1,
        en_passant: 0,
        zobrist_hash: 0,
        attack_sets: vec![0u64; 512],
    }
}

#[test]
fn file_and_rank_masks() {
    assert_eq!(FILE_MASK[0], 0x0101010101010101);
    assert_eq!(FILE_MASK[7], 0x8080808080808080);
    assert_eq!(RANK_MASK[0], 0xFF);
    assert_eq!(RANK_MASK[7], 0xFF00000000000000);
}

#[test]
fn material_counts() {
    // White: queen d1, pawns a2 b2, king e1. Black: rook h8, pawn h7, king e8.
    let b = board(
        sq(8) | sq(9) | sq(55),
        0,
        0,
        sq(63),
        sq(3),
        sq(4) | sq(60),
        sq(3) | sq(8) | sq(9) | sq(4),
        sq(63) | sq(55) | sq(60),
    );
    assert_eq!(count_material(&b, true, false), 500);
    assert_eq!(count_material(&b, true, true), 1700);
    assert_eq!(count_material(&b, false, true), 1400);
    assert_eq!(count_material(&b, false, false), 400);
}

#[test]
fn rook_terms_on_an_open_file() {
    // White rook a1, white king e1, black king a8; the rook sees the a-file and the first rank.
    let mut b = board(0, 0, 0, sq(0), 0, sq(4) | sq(56), sq(0) | sq(4), sq(56));
    b.attack_sets[256] = 0x0101010101010100 | 0xFE;
    // mg: table 0 + open file 40; eg: -5; mobility 14 squares * 2; king units: a7, a8 * 3
    assert_eq!(bb_to_posmod(sq(0), 3, true, &b, 56, king_zone_mask(56)), (40, -5, 28, 6));
    // no pawns on the board but one of the rook's own colour: same bonus
    b.pawns = sq(9);
    b.white_pieces |= sq(9);
    assert_eq!(bb_to_posmod(sq(0), 3, true, &b, 56, king_zone_mask(56)), (40, -5, 28, 6));
    // an enemy pawn on the file: semi-open
    b.pawns = sq(48);
    b.white_pieces = sq(0) | sq(4);
    b.black_pieces |= sq(48);
    assert_eq!(bb_to_posmod(sq(0), 3, true, &b, 56, king_zone_mask(56)), (20, -5, 28, 6));
}

#[test]
fn black_terms_count_against_white() {
    // Black rook h8, black king e8, white king h1; the rook sees the h-file and the last rank.
    let mut b = board(0, 0, 0, sq(63), 0, sq(60) | sq(7), sq(7), sq(63) | sq(60));
    b.attack_sets[256 + 64 + 63] = 0x0080808080808080 | 0x7F00000000000000;
    // zone of h1: g1 h1 g2 h2; the rook attacks h1 and h2
    assert_eq!(bb_to_posmod(sq(63), 3, false, &b, 7, king_zone_mask(7)), (-40, 5, -28, 6));
}

#[test]
fn bare_kings() {
    let b = board(0, 0, 0, 0, 0, sq(4) | sq(60), sq(4), sq(60));
    let p = positional_terms(&b);
    assert_eq!(p.major_piece_count, 0);
    assert_eq!(p.mg_modifier, 0);
    assert_eq!(p.eg_modifier, 0);
    assert_eq!(p.mobility_score, 0);
    assert_eq!(p.w_king_attack_units, 0);
    assert_eq!(p.b_king_attack_units, 0);
    assert_eq!(p.w_king_files, [FileCover::Open; 3]);
    assert_eq!(p.b_king_files, [FileCover::Open; 3]);
    // both queens are off their home squares early in the game: the penalties cancel
    assert_eq!(p.early_queen_mod, 0);
    assert_eq!(p.tempo, 20);
}

#[test]
fn positional_terms_of_a_small_position() {
    // White: king g1, pawns f2 g2 h2, bishops c1 f1, queen d1. Black: king e8, pawns d7 d6, to
    // move on move 3.
    let mut b = board(
        sq(13) | sq(14) | sq(15) | sq(51) | sq(43),
        0,
        sq(2) | sq(5),
        0,
        sq(3),
        sq(6) | sq(60),
        sq(6) | sq(13) | sq(14) | sq(15) | sq(2) | sq(5) | sq(3),
        sq(60) | sq(51) | sq(43),
    );
    b.side_to_move = false;
    b.fullmove_number = 3;
    let p = positional_terms(&b);
    assert_eq!(p.major_piece_count, 1500);
    assert_eq!(p.tempo, -20);
    // the White queen is home, the Black one is not on the board: +4 * 10
    assert_eq!(p.early_queen_mod, 40);
    // the White king's files (f, g, h) all hold a White pawn
    assert_eq!(p.w_king_files, [FileCover::Covered; 3]);
    // Black's king on e8: d-file has Black pawns, e-file none, f-file only a White pawn
    assert_eq!(p.b_king_files, [FileCover::Covered, FileCover::Open, FileCover::SemiOpen]);
}

#[test]
fn moves_are_ordered_front_captures_killers_rest() {
    // White: pawn e4, knight c3, queen d1, king e1. Black: queen d4, rook d5, king e8.
    let b = board(
        sq(28),
        sq(18),
        0,
        sq(35),
        sq(3) | sq(27),
        sq(4) | sq(60),
        sq(28) | sq(18) | sq(3) | sq(4),
        sq(27) | sq(35) | sq(60),
    );
    let mut moves: ArrayVec<u16, 256> = ArrayVec::new();
    for m in [100u16, 101, 102, 103, 104, 105] {
        moves.push(m);
    }
    let decoded: Vec<MoveInfo> = vec![
        mi(12, 20, 0, false), // quiet
        mi(28, 35, 1, false), // pawn takes rook: 10 * 500 - 100
        mi(3, 27, 1, false),  // queen takes queen: 10 * 900 - 900
        mi(18, 35, 1, false), // knight takes rook: 10 * 500 - 300
        mi(4, 5, 0, false),   // quiet, the move to front
        mi(4, 12, 0, false),  // quiet, a killer
    ];
    reorder_moves(&b, &mut moves, &decoded, Some(104), [Some(105), Some(999)]);
    assert_eq!(moves.as_slice(), &[104, 102, 101, 103, 105, 100]);
}

#[test]
fn absent_front_move_and_killers_are_skipped() {
    let b = board(0, 0, 0, 0, 0, sq(4) | sq(60), sq(4), sq(60));
    let mut moves: ArrayVec<u16, 256> = ArrayVec::new();
    for m in [7u16, 8, 9] {
        moves.push(m);
    }
    let decoded: Vec<MoveInfo> = vec![mi(4, 5, 0, false), mi(4, 12, 0, false), mi(4, 3, 0, false)];
    reorder_moves(&b, &mut moves, &decoded, Some(50), [Some(9), Some(8)]);
    assert_eq!(moves.as_slice(), &[9, 8, 7]);
    // a killer that is also the move to front is placed once
    let mut moves2: ArrayVec<u16, 256> = ArrayVec::new();
    for m in [7u16, 8, 9] {
        moves2.push(m);
    }
    reorder_moves(&b, &mut moves2, &decoded, Some(9), [Some(9), Some(9)]);
    assert_eq!(moves2.as_slice(), &[9, 7, 8]);
}

#[test]
fn en_passant_counts_pawn_takes_pawn() {
    // White pawn e5, black pawn d5 that just moved two squares, en-passant target d6.
    let mut b = board(sq(36) | sq(35), 0, 0, 0, sq(27), sq(4) | sq(60), sq(36) | sq(4), sq(35) | sq(60) | sq(27));
    b.en_passant = sq(43);
    let mut moves: ArrayVec<u16, 256> = ArrayVec::new();
    for m in [1u16, 2] {
        moves.push(m);
    }
    // en passant scores 10 * 100 - 100 = 900; king takes queen would be 10 * 900 - 0
    let decoded: Vec<MoveInfo> = vec![mi(36, 43, 3, false), mi(4, 27, 1, false)];
    b.kings = sq(4) | sq(60);
    reorder_moves(&b, &mut moves, &decoded, None, [None, None]);
    assert_eq!(moves.as_slice(), &[2, 1]);
}

#[test]
fn positions_that_can_be_scored() {
    let kings = board(0, 0, 0, 0, 0, sq(4) | sq(60), sq(4), sq(60));
    assert!(can_score(&kings));
    // a missing king
    let no_black_king = board(0, 0, 0, 0, 0, sq(4), sq(4), 0);
    assert!(!can_score(&no_black_king));
    // an incomplete attack table
    let mut short = board(0, 0, 0, 0, 0, sq(4) | sq(60), sq(4), sq(60));
    short.attack_sets = vec![0u64; 10];
    assert!(!can_score(&short));
    // a White pawn on the last rank with a neighbour is not scorable, an isolated one is
    let neighbour = board(sq(57) | sq(50), 0, 0, 0, 0, sq(4) | sq(60), sq(57) | sq(50) | sq(4), sq(60));
    assert!(!can_score(&neighbour));
    let lone = board(sq(57), 0, 0, 0, 0, sq(4) | sq(60), sq(57) | sq(4), sq(60));
    assert!(can_score(&lone));
    // a White pawn on the first rank that is passed is not scorable
    let back = board(sq(1), 0, 0, 0, 0, sq(4) | sq(60), sq(1) | sq(4), sq(60));
    assert!(!can_score(&back));
    // thirty-six White queens still fit the material sums; thirty-seven do not
    let q36: u64 = ((1u64 << 36) - 1) << 8;
    let many = board(0, 0, 0, 0, q36, sq(4) | sq(60), q36 | sq(4), sq(60));
    assert!(material_fits(&many, false, true));
    assert!(can_score(&many));
    assert_eq!(count_material(&many, false, true), 32400);
    let q37: u64 = ((1u64 << 37) - 1) << 8;
    let too_many = board(0, 0, 0, 0, q37, sq(4) | sq(60), q37 | sq(4), sq(60));
    assert!(!material_fits(&too_many, false, true));
    assert!(!can_score(&too_many));
}

#[test]
fn scores_from_the_side_to_move() {
    assert_eq!(relative_score(150, true), 150);
    assert_eq!(relative_score(150, false), -150);
    assert_eq!(relative_score(-32767, false), 32767);
}

#[test]
fn quiet_checks_come_after_captures_and_before_killers() {
    // White: queen d1, rook a1, king e1. Black: rook d5, king e8.
    let b = board(
        0,
        0,
        0,
        sq(0) | sq(35),
        sq(3),
        sq(4) | sq(60),
        sq(0) | sq(3) | sq(4),
        sq(35) | sq(60),
    );
    let mut moves: ArrayVec<u16, 256> = ArrayVec::new();
    for m in [10u16, 11, 12, 13, 14, 15, 16] {
        moves.push(m);
    }
    let decoded: Vec<MoveInfo> = vec![
        mi(4, 5, 0, false),  // quiet
        mi(0, 56, 0, true),  // rook check, a killer too: filed with the checks
        mi(3, 35, 1, true),  // queen takes rook with check: filed with the captures
        mi(3, 11, 0, false), // quiet, a killer
        mi(3, 39, 0, true),  // queen check
        mi(4, 12, 0, true),  // checking move to front: stays in front
        mi(0, 1, 0, false),  // quiet
    ];
    reorder_moves(&b, &mut moves, &decoded, Some(15), [Some(11), Some(13)]);
    assert_eq!(moves.as_slice(), &[15, 12, 11, 14, 13, 10, 16]);
}

#[test]
fn side_to_move_changes_only_the_tempo() {
    let mut b = board(
        sq(13) | sq(14) | sq(15) | sq(51) | sq(43),
        0,
        sq(2) | sq(5),
        0,
        sq(3),
        sq(6) | sq(60),
        sq(6) | sq(13) | sq(14) | sq(15) | sq(2) | sq(5) | sq(3),
        sq(60) | sq(51) | sq(43),
    );
    let w = positional_terms(&b);
    b.side_to_move = false;
    let k = positional_terms(&b);
    assert_eq!(
        (w.major_piece_count, w.mg_modifier, w.eg_modifier, w.mobility_score, w.early_queen_mod),
        (k.major_piece_count, k.mg_modifier, k.eg_modifier, k.mobility_score, k.early_queen_mod)
    );
    assert_eq!((w.w_king_attack_units, w.b_king_attack_units), (k.w_king_attack_units, k.b_king_attack_units));
    assert_eq!((w.w_king_files, w.b_king_files), (k.w_king_files, k.b_king_files));
    assert_eq!(w.tempo - k.tempo, 40);
}

#[test]
fn piece_terms_add_over_disjoint_squares() {
    // White rooks a1 and h1 with their attack sets.
    let mut b = board(0, 0, 0, sq(0) | sq(7), 0, sq(4) | sq(56), sq(0) | sq(7) | sq(4), sq(56));
    b.attack_sets[256] = 0x0101010101010100 | 0x0E;
    b.attack_sets[256 + 7] = 0x8080808080808000 | 0x60;
    let zone = king_zone_mask(56);
    let a = bb_to_posmod(sq(0), 3, true, &b, 56, zone);
    let h = bb_to_posmod(sq(7), 3, true, &b, 56, zone);
    let both = bb_to_posmod(sq(0) | sq(7), 3, true, &b, 56, zone);
    assert_eq!(both, (a.0 + h.0, a.1 + h.1, a.2 + h.2, a.3 + h.3));
    assert_eq!(bb_to_posmod(0, 3, true, &b, 56, zone), (0, 0, 0, 0));
}
