use vstd::prelude::*;
use crate::engine::bitboard::{
    has_sq, popcount, count_bits, lemma_has_or, lemma_has_and, lowest_sq, lemma_clear_lowest, lemma_popcount_clear_lowest,
    lemma_popcount_bound, lemma_has_zero,
};
use crate::engine::board::Board;
use crate::engine::eval_heuristics::{
    PIECE_VALUES, MOBILITY_BONUS, KING_ATTACK_WEIGHT, MG_PASSED_PAWN_BONUS, EG_PASSED_PAWN_BONUS,
    MG_ISOLATED_PAWN_PENALTY, EG_ISOLATED_PAWN_PENALTY, MG_BACKWARD_PAWN_PENALTY,
    EG_BACKWARD_PAWN_PENALTY, OPEN_FILE_ROOK, SEMIOPEN_FILE_ROOK, MG_PAWN_MOD, MG_KNIGHT_MOD,
    MG_BISHOP_MOD, MG_ROOK_MOD, MG_QUEEN_MOD, MG_KING_MOD, EG_PAWN_MOD, EG_KNIGHT_MOD, EG_BISHOP_MOD,
    EG_ROOK_MOD, EG_QUEEN_MOD, EG_KING_MOD,
};
use crate::engine::utils::{
    square_file, square_rank, pawn_passed, pawn_isolated, pawn_backward, pawn_shield_score,
    king_zone_pawn_attacker_mask, king_zone_mask, king_file_weakness, FileCover,
};
use crate::engine::eval_heuristics::{
    MG_BISHOP_PAIR_BONUS, EG_BISHOP_PAIR_BONUS, MG_DOUBLED_PAWN_PENALTY, EG_DOUBLED_PAWN_PENALTY,
    MAX_KING_ATTACK_UNITS, EARLY_QUEEN_FACTOR, TEMPO_BONUS,
};
use crate::engine::utils::geometry::{on_file, lemma_file_meets};
use crate::engine::utils::king::{shield_score, zone_attackers, zone_bb, file_cover};
use crate::engine::utils::pawns::{
    passed_span, adjacent_file, backward_span, pawn_attack, stop_square, pawns_of, enemy_pawns,
};

verus! {

// FILE_MASK[0] = a file.
pub const FILE_MASK: [u64; 8] = [
    0x0101010101010101,
    0x0202020202020202,
    0x0404040404040404,
    0x0808080808080808,
    0x1010101010101010,
    0x2020202020202020,
    0x4040404040404040,
    0x8080808080808080,
];

pub const RANK_MASK: [u64; 8] = [
    0x00000000000000FF,
    0x000000000000FF00,
    0x0000000000FF0000,
    0x00000000FF000000,
    0x000000FF00000000,
    0x0000FF0000000000,
    0x00FF000000000000,
    0xFF00000000000000,
];


/// Material of one side: piece value times piece count, pawns included only when `pawns`.
pub open spec fn side_material(b: &Board, white: bool, pawns: bool) -> int {
    let side = if white {
        b.white_pieces
    } else {
        b.black_pieces
    };
    (if pawns {
        PIECE_VALUES[0] * popcount(b.pawns & side)
    } else {
        0
    }) + PIECE_VALUES[1] * popcount(b.knights & side) + PIECE_VALUES[2] * popcount(
        b.bishops & side,
    ) + PIECE_VALUES[3] * popcount(b.rooks & side) + PIECE_VALUES[4] * popcount(b.queens & side)
}

/// A value `i16` holds.
pub open spec fn fits_i16(x: int) -> bool {
    i16::MIN <= x <= i16::MAX
}

/// Every value `count_material` computes on the way fits an `i16`: the per-kind products and
/// the running White and Black sums, in the order the code forms them.
pub open spec fn count_material_fits(b: &Board, pawns: bool, total: bool) -> bool {
    let w = b.white_pieces;
    let k = b.black_pieces;
    let m1: int = if pawns {
        PIECE_VALUES[0] * popcount(b.pawns & w)
    } else {
        0
    };
    let m2: int = if pawns {
        if total {
            m1 + PIECE_VALUES[0] * popcount(b.pawns & k)
        } else {
            m1 - PIECE_VALUES[0] * popcount(b.pawns & k)
        }
    } else {
        0
    };
    let m3: int = m2 + PIECE_VALUES[1] * popcount(b.knights & w);
    let m4: int = m3 + PIECE_VALUES[2] * popcount(b.bishops & w);
    let m5: int = m4 + PIECE_VALUES[3] * popcount(b.rooks & w);
    let wq: int = PIECE_VALUES[4] * popcount(b.queens & w);
    let m6: int = m5 + wq;
    let b1: int = PIECE_VALUES[1] * popcount(b.knights & k);
    let b2: int = b1 + PIECE_VALUES[2] * popcount(b.bishops & k);
    let b3: int = b2 + PIECE_VALUES[3] * popcount(b.rooks & k);
    let bq: int = PIECE_VALUES[4] * popcount(b.queens & k);
    let b4: int = b3 + bq;
    &&& fits_i16(m1) && fits_i16(m2) && fits_i16(m3) && fits_i16(m4) && fits_i16(m5)
    &&& fits_i16(wq) && fits_i16(m6)
    &&& fits_i16(b2) && fits_i16(b3) && fits_i16(bq) && fits_i16(b4)
    &&& fits_i16(
        if total {
            m6 + b4
        } else {
            m6 - b4
        },
    )
}

// returns objective material count: White's material plus (`total`) or minus Black's.
pub fn count_material(board: &Board, pawns: bool, total: bool) -> (m: i16)
    requires
        count_material_fits(board, pawns, total),
    ensures
        m == side_material(board, true, pawns) + (if total {
            side_material(board, false, pawns)
        } else {
            -side_material(board, false, pawns)
        }),
{
    let mut material: i16 = 0;

    if pawns {
        material += PIECE_VALUES[0] * count_bits(board.pawns & board.white_pieces) as i16;
        let bpawns: i16 = PIECE_VALUES[0] * count_bits(board.pawns & board.black_pieces) as i16;
        if total {
            material += bpawns;
        } else {
            material -= bpawns;
        }
    }
    material += PIECE_VALUES[1] * count_bits(board.knights & board.white_pieces) as i16;
    material += PIECE_VALUES[2] * count_bits(board.bishops & board.white_pieces) as i16;
    material += PIECE_VALUES[3] * count_bits(board.rooks & board.white_pieces) as i16;
    material += PIECE_VALUES[4] * count_bits(board.queens & board.white_pieces) as i16;

    let mut b_material: i16 = 0;
    b_material += PIECE_VALUES[1] * count_bits(board.knights & board.black_pieces) as i16;
    b_material += PIECE_VALUES[2] * count_bits(board.bishops & board.black_pieces) as i16;
    b_material += PIECE_VALUES[3] * count_bits(board.rooks & board.black_pieces) as i16;
    b_material += PIECE_VALUES[4] * count_bits(board.queens & board.black_pieces) as i16;
    if total {
        material += b_material;
    } else {
        material -= b_material;
    }

    material
}

/// Middlegame piece-square table of piece kind `t` (0 pawn .. 5 king), from White's side.
pub open spec fn mg_table(t: u8) -> [i8; 64] {
    if t == 0 {
        MG_PAWN_MOD
    } else if t == 1 {
        MG_KNIGHT_MOD
    } else if t == 2 {
        MG_BISHOP_MOD
    } else if t == 3 {
        MG_ROOK_MOD
    } else if t == 4 {
        MG_QUEEN_MOD
    } else {
        MG_KING_MOD
    }
}

/// Endgame piece-square table of piece kind `t`, from White's side.
pub open spec fn eg_table(t: u8) -> [i8; 64] {
    if t == 0 {
        EG_PAWN_MOD
    } else if t == 1 {
        EG_KNIGHT_MOD
    } else if t == 2 {
        EG_BISHOP_MOD
    } else if t == 3 {
        EG_ROOK_MOD
    } else if t == 4 {
        EG_QUEEN_MOD
    } else {
        EG_KING_MOD
    }
}

/// A pawn of the given colour on `sq` is passed.
pub open spec fn passed_at(b: &Board, white: bool, sq: u64) -> bool {
    forall|s: u64| passed_span(white, sq, s) ==> !#[trigger] has_sq(enemy_pawns(b, white), s)
}

/// A pawn of the given colour on `sq` is isolated.
pub open spec fn isolated_at(b: &Board, white: bool, sq: u64) -> bool {
    forall|s: u64| adjacent_file(sq % 8, s) ==> !#[trigger] has_sq(pawns_of(b, white), s)
}

/// A pawn of the given colour on `sq` is backward.
pub open spec fn backward_at(b: &Board, white: bool, sq: u64) -> bool {
    (forall|s: u64| backward_span(white, sq, s) ==> !#[trigger] has_sq(pawns_of(b, white), s)) && (
    exists|s: u64|
        pawn_attack(white, stop_square(white, sq), s) && #[trigger] has_sq(enemy_pawns(b, white), s))
}

/// The passed-pawn bonus index of a pawn on rank `rank` (1..=8), when the rank earns one:
/// ranks 2-6 for White, ranks 7-3 for Black (the last step is in the tables).
pub open spec fn passed_bonus_rank(white: bool, rank: int) -> bool {
    if white {
        rank < 7
    } else {
        rank > 2
    }
}

pub open spec fn passed_bonus_index(white: bool, rank: int) -> int {
    if white {
        rank - 2
    } else {
        7 - rank
    }
}

/// Mobility of a knight, bishop, rook or queen (`t` 1..=4): attacked squares times its
/// mobility bonus; nothing for pawns and kings.
pub open spec fn mobility_term(b: &Board, t: u8, white: bool, sq: u64) -> int {
    if 1 <= t <= 4 {
        popcount(b.attack_set(t, white, sq)) * MOBILITY_BONUS[t - 1]
    } else {
        0
    }
}

/// King-attack units of a knight, bishop, rook or queen: attacked squares of the enemy king
/// zone times its weight.
pub open spec fn units_term(b: &Board, t: u8, white: bool, zone: u64, sq: u64) -> int {
    if 1 <= t <= 4 {
        popcount(b.attack_set(t, white, sq) & zone) * KING_ATTACK_WEIGHT[t as int]
    } else {
        0
    }
}

/// Pawn-structure terms (middlegame, endgame) of a pawn of the given colour on `sq`: the
/// passed-pawn bonus less the isolated (or else backward) penalty.
pub open spec fn pawn_structure(b: &Board, white: bool, sq: u64) -> (int, int) {
    let rank: int = (sq / 8 + 1) as int;
    let passed: bool = passed_bonus_rank(white, rank) && passed_at(b, white, sq);
    let idx: int = passed_bonus_index(white, rank);
    let bonus: (int, int) = if passed {
        (MG_PASSED_PAWN_BONUS[idx] as int, EG_PASSED_PAWN_BONUS[idx] as int)
    } else {
        (0, 0)
    };
    let penalty: (int, int) = if isolated_at(b, white, sq) {
        (MG_ISOLATED_PAWN_PENALTY as int, EG_ISOLATED_PAWN_PENALTY as int)
    } else if backward_at(b, white, sq) {
        (MG_BACKWARD_PAWN_PENALTY as int, EG_BACKWARD_PAWN_PENALTY as int)
    } else {
        (0, 0)
    };
    (bonus.0 - penalty.0, bonus.1 - penalty.1)
}

/// Open (no pawn) or semi-open (no friendly pawn) file bonus of a rook of the given colour on
/// `sq`.
pub open spec fn rook_file_term(b: &Board, white: bool, sq: u64) -> int {
    if !on_file(b.pawns, sq % 8) {
        OPEN_FILE_ROOK as int
    } else if !on_file(pawns_of(b, white), sq % 8) {
        SEMIOPEN_FILE_ROOK as int
    } else {
        0
    }
}

/// A term counted for White as it is, for Black negated.
pub open spec fn for_side(white: bool, x: int) -> int {
    if white {
        x
    } else {
        -x
    }
}

/// What a piece of kind `t` and colour `white` on `sq` adds to the (middlegame, endgame,
/// mobility, king-attack-units) terms, all from White's point of view except king-attack
/// units, which count for the attacking side. Black reads the tables mirrored.
pub open spec fn piece_terms(b: &Board, t: u8, white: bool, zone: u64, sq: u64) -> (
    int,
    int,
    int,
    int,
) {
    let tab: int = if white {
        sq as int
    } else {
        63 - sq
    };
    let pawn: (int, int) = if t == 0 {
        pawn_structure(b, white, sq)
    } else {
        (0, 0)
    };
    let rook: int = if t == 3 {
        rook_file_term(b, white, sq)
    } else {
        0
    };
    let king: int = if t == 5 {
        shield_score(b, white, sq)
    } else {
        0
    };
    (
        for_side(white, mg_table(t)[tab] as int + pawn.0 + rook + king),
        for_side(white, eg_table(t)[tab] as int + pawn.1),
        for_side(white, mobility_term(b, t, white, sq)),
        units_term(b, t, white, zone, sq),
    )
}

/// The terms of the pieces on the squares of `bb` below `n`.
pub open spec fn posmod_sum(b: &Board, bb: u64, t: u8, white: bool, zone: u64, n: int) -> (
    int,
    int,
    int,
    int,
)
    decreases n,
{
    if n <= 0 {
        (0, 0, 0, 0)
    } else {
        let prev = posmod_sum(b, bb, t, white, zone, n - 1);
        if has_sq(bb, (n - 1) as u64) {
            let d = piece_terms(b, t, white, zone, (n - 1) as u64);
            (prev.0 + d.0, prev.1 + d.1, prev.2 + d.2, prev.3 + d.3)
        } else {
            prev
        }
    }
}

/// A pawn of the given colour on `sq` can be scored: White pawns on the first rank are not
/// passed and White pawns on the last rank are isolated (mirrored for Black), since the
/// passed-pawn bonus table and the stop square would fall off the board otherwise.
pub open spec fn pawn_scorable(b: &Board, white: bool, sq: u64) -> bool {
    if white {
        (sq / 8 == 0 ==> !passed_at(b, true, sq)) && (sq >= 56 ==> isolated_at(b, true, sq))
    } else {
        (sq / 8 == 7 ==> !passed_at(b, false, sq)) && (sq < 8 ==> isolated_at(b, false, sq))
    }
}

/// The inputs `bb_to_posmod` can score: a piece kind, a king square for pawns, an attack
/// table for sliders and knights, and pawns that `pawn_scorable` accepts.
pub open spec fn posmod_ok(b: &Board, bb: u64, t: u8, white: bool, enemy_king_sq: usize) -> bool {
    &&& t <= 5
    &&& t == 0 ==> enemy_king_sq < 64
    &&& 1 <= t <= 4 ==> b.attack_sets@.len() == 512
    &&& t == 0 ==> forall|s: u64| #[trigger] has_sq(bb, s) ==> pawn_scorable(b, white, s)
}

proof fn lemma_small_tables()
    ensures
        forall|i: int| 0 <= i < 5 ==> 0 <= #[trigger] MG_PASSED_PAWN_BONUS[i] <= 35,
        forall|i: int| 0 <= i < 5 ==> 0 <= #[trigger] EG_PASSED_PAWN_BONUS[i] <= 65,
        forall|i: int| 0 <= i < 5 ==> 1 <= #[trigger] KING_ATTACK_WEIGHT[i] <= 5,
        forall|i: int| 0 <= i < 4 ==> 1 <= #[trigger] MOBILITY_BONUS[i] <= 4,
{
    assert forall|i: int| 0 <= i < 5 implies 0 <= #[trigger] MG_PASSED_PAWN_BONUS[i] <= 35 by {
        assert(i == 0 || i == 1 || i == 2 || i == 3 || i == 4);
    }
    assert forall|i: int| 0 <= i < 5 implies 0 <= #[trigger] EG_PASSED_PAWN_BONUS[i] <= 65 by {
        assert(i == 0 || i == 1 || i == 2 || i == 3 || i == 4);
    }
    assert forall|i: int| 0 <= i < 5 implies 1 <= #[trigger] KING_ATTACK_WEIGHT[i] <= 5 by {
        assert(i == 0 || i == 1 || i == 2 || i == 3 || i == 4);
    }
    assert forall|i: int| 0 <= i < 4 implies 1 <= #[trigger] MOBILITY_BONUS[i] <= 4 by {
        assert(i == 0 || i == 1 || i == 2 || i == 3);
    }
}

/// Mobility and king-attack units of a knight, bishop, rook or queen.
fn attack_terms(b: &Board, t: u8, white: bool, zone: u64, i: usize) -> (r: (i16, i16))
    requires
        1 <= t <= 4,
        i < 64,
        b.attack_sets@.len() == 512,
    ensures
        r.0 == mobility_term(b, t, white, i as u64),
        r.1 == units_term(b, t, white, zone, i as u64),
        0 <= r.0 <= 256,
        0 <= r.1 <= 320,
{
    proof {
        lemma_small_tables();
    }
    let attacks: u64 = b.attacks(t, white, i);
    let zone_hits: u64 = attacks & zone;
    proof {
        lemma_popcount_bound(attacks);
        lemma_popcount_bound(zone_hits);
    }
    let attacked: i16 = count_bits(attacks) as i16;
    let hits: i16 = count_bits(zone_hits) as i16;
    assert(attacked * MOBILITY_BONUS[t - 1] <= 256) by (nonlinear_arith)
        requires
            0 <= attacked <= 64,
            1 <= MOBILITY_BONUS[t - 1] <= 4,
    ;
    assert(hits * KING_ATTACK_WEIGHT[t as int] <= 320) by (nonlinear_arith)
        requires
            0 <= hits <= 64,
            1 <= KING_ATTACK_WEIGHT[t as int] <= 5,
    ;
    assert(0 <= attacked * MOBILITY_BONUS[t - 1]) by (nonlinear_arith)
        requires
            0 <= attacked,
            1 <= MOBILITY_BONUS[t - 1],
    ;
    assert(0 <= hits * KING_ATTACK_WEIGHT[t as int]) by (nonlinear_arith)
        requires
            0 <= hits,
            1 <= KING_ATTACK_WEIGHT[t as int],
    ;
    (attacked * MOBILITY_BONUS[(t - 1) as usize], hits * KING_ATTACK_WEIGHT[t as usize])
}

/// Passed-pawn bonus less isolated/backward penalty of one pawn.
fn pawn_terms(b: &Board, white: bool, i: usize) -> (r: (i16, i16))
    requires
        i < 64,
        pawn_scorable(b, white, i as u64),
    ensures
        (r.0 as int, r.1 as int) == pawn_structure(b, white, i as u64),
        -20 <= r.0 <= 35,
        -20 <= r.1 <= 65,
{
    proof {
        lemma_small_tables();
    }
    let mut mg: i16 = 0;
    let mut eg: i16 = 0;
    let rank: u8 = square_rank(i as u8);
    if white {
        // rank 7 is always passed - baked into MG_PAWN_MOD/EG_PAWN_MOD's rank 7 row instead.
        if rank < 7 && pawn_passed(i as u8, true, b) {
            let idx: usize = (rank - 2) as usize;
            mg += MG_PASSED_PAWN_BONUS[idx];
            eg += EG_PASSED_PAWN_BONUS[idx];
        }
    } else {
        // rank 2 is always passed - baked into MG_PAWN_MOD/EG_PAWN_MOD's rank 7 row instead.
        if rank > 2 && pawn_passed(i as u8, false, b) {
            let idx: usize = (7 - rank) as usize;
            mg += MG_PASSED_PAWN_BONUS[idx];
            eg += EG_PASSED_PAWN_BONUS[idx];
        }
    }
    if pawn_isolated(i as u8, white, b) {
        mg -= MG_ISOLATED_PAWN_PENALTY;
        eg -= EG_ISOLATED_PAWN_PENALTY;
    } else if pawn_backward(i as u8, white, b) {
        mg -= MG_BACKWARD_PAWN_PENALTY;
        eg -= EG_BACKWARD_PAWN_PENALTY;
    }
    (mg, eg)
}

/// Open/semi-open file bonus of one rook.
fn rook_terms(b: &Board, white: bool, i: usize) -> (r: i16)
    requires
        i < 64,
    ensures
        r == rook_file_term(b, white, i as u64),
        0 <= r <= 40,
{
    let file_i: usize = (square_file(i as u8) - 1) as usize;
    let friendly_pawns: u64 = if white {
        b.pawns & b.white_pieces
    } else {
        b.pawns & b.black_pieces
    };
    proof {
        lemma_file_meets(b.pawns, file_i as u64);
        lemma_file_meets(friendly_pawns, file_i as u64);
        let p: u64 = b.pawns;
        let w: u64 = b.white_pieces;
        let k: u64 = b.black_pieces;
        assert(p & w == w & p) by (bit_vector);
        assert(p & k == k & p) by (bit_vector);
        assert(friendly_pawns == pawns_of(b, white));
    }
    if FILE_MASK[file_i] & b.pawns == 0 {
        OPEN_FILE_ROOK
    } else if FILE_MASK[file_i] & friendly_pawns == 0 {
        SEMIOPEN_FILE_ROOK
    } else {
        0
    }
}

/// The terms of one piece, computed.
fn square_terms(
    b: &Board,
    t: u8,
    white: bool,
    zone: u64,
    i: usize,
    mg_mask: &[i8; 64],
    eg_mask: &[i8; 64],
) -> (r: (i16, i16, i16, i16))
    requires
        t <= 5,
        i < 64,
        *mg_mask == mg_table(t),
        *eg_mask == eg_table(t),
        1 <= t <= 4 ==> b.attack_sets@.len() == 512,
        t == 0 ==> pawn_scorable(b, white, i as u64),
    ensures
        (r.0 as int, r.1 as int, r.2 as int, r.3 as int) == piece_terms(b, t, white, zone, i as u64),
        -300 <= r.0 <= 300,
        -250 <= r.1 <= 250,
        -256 <= r.2 <= 256,
        0 <= r.3 <= 320,
{
    let mut mg: i16 = if white {
        mg_mask[i] as i16
    } else {
        mg_mask[63 - i] as i16
    };
    let mut eg: i16 = if white {
        eg_mask[i] as i16
    } else {
        eg_mask[63 - i] as i16
    };
    let mut ms: i16 = 0;
    let mut units: i16 = 0;
    if t >= 1 && t <= 4 {
        let (m, u): (i16, i16) = attack_terms(b, t, white, zone, i);
        ms = m;
        units = u;
    }
    if t == 0 {
        let (pm, pe): (i16, i16) = pawn_terms(b, white, i);
        mg += pm;
        eg += pe;
    }
    if t == 3 {
        mg += rook_terms(b, white, i);
    }
    if t == 5 {
        mg += pawn_shield_score(i as u8, white, b);
    }
    if white {
        (mg, eg, ms, units)
    } else {
        (-mg, -eg, -ms, units)
    }
}


/// King-attack units of pawns of kind-0 bitboard `bb` against the zone of the enemy king on
/// `enemy_king_sq`: pawns standing where they attack a zone square.
pub open spec fn pawn_zone_units(bb: u64, t: u8, white: bool, enemy_king_sq: usize) -> int {
    if t == 0 {
        popcount(bb & zone_attackers(!white, enemy_king_sq as u64)) * KING_ATTACK_WEIGHT[0]
    } else {
        0
    }
}

proof fn lemma_posmod_gap(b: &Board, bb: u64, t: u8, white: bool, zone: u64, k: int, n: int)
    requires
        0 <= k <= n <= 64,
        forall|s: u64| k <= s < n ==> !#[trigger] has_sq(bb, s),
    ensures
        posmod_sum(b, bb, t, white, zone, n) == posmod_sum(b, bb, t, white, zone, k),
    decreases n - k,
{
    if n > k {
        assert(!has_sq(bb, (n - 1) as u64));
        lemma_posmod_gap(b, bb, t, white, zone, k, n - 1);
    }
}

proof fn lemma_posmod_tail(b: &Board, bb: u64, t: u8, white: bool, zone: u64, k: int)
    requires
        0 <= k <= 64,
        forall|s: u64| k <= s ==> !#[trigger] has_sq(bb, s),
    ensures
        posmod_sum(b, bb, t, white, zone, 64) == posmod_sum(b, bb, t, white, zone, k),
{
    lemma_posmod_gap(b, bb, t, white, zone, k, 64);
}

// piece_type 0-5 = pawn, knight, bishop, rook, queen, king.
// returns (mg, eg, mobility_score, king_attack_units) for one piece type, one side.
// king_attack_units is raw (unscaled) - callers apply the nonlinear scaling once per side.
pub fn bb_to_posmod(
    bb: u64,
    piece_type: u8,
    to_move: bool,
    board: &Board,
    enemy_king_sq: usize,
    enemy_king_zone: u64,
) -> (r: (i16, i16, i16, i16))
    requires
        posmod_ok(board, bb, piece_type, to_move, enemy_king_sq),
    ensures
        ({
            let s = posmod_sum(board, bb, piece_type, to_move, enemy_king_zone, 64);
            &&& r.0 == s.0
            &&& r.1 == s.1
            &&& r.2 == s.2
            &&& r.3 == s.3 + pawn_zone_units(bb, piece_type, to_move, enemy_king_sq)
        }),
        -300 * popcount(bb) <= r.0 <= 300 * popcount(bb),
        -250 * popcount(bb) <= r.1 <= 250 * popcount(bb),
        -256 * popcount(bb) <= r.2 <= 256 * popcount(bb),
        0 <= r.3 <= 320 * popcount(bb) + 64,
{
    let mg_mask: [i8; 64];
    let eg_mask: [i8; 64];
    if piece_type == 0 {
        mg_mask = MG_PAWN_MOD;
        eg_mask = EG_PAWN_MOD;
    } else if piece_type == 1 {
        mg_mask = MG_KNIGHT_MOD;
        eg_mask = EG_KNIGHT_MOD;
    } else if piece_type == 2 {
        mg_mask = MG_BISHOP_MOD;
        eg_mask = EG_BISHOP_MOD;
    } else if piece_type == 3 {
        mg_mask = MG_ROOK_MOD;
        eg_mask = EG_ROOK_MOD;
    } else if piece_type == 4 {
        mg_mask = MG_QUEEN_MOD;
        eg_mask = EG_QUEEN_MOD;
    } else {
        mg_mask = MG_KING_MOD;
        eg_mask = EG_KING_MOD;
    }

    let mut mg_modifier: i16 = 0;
    let mut eg_modifier: i16 = 0;
    let mut mobility_score: i16 = 0;
    let mut king_attack_units: i16 = 0;
    let mut mbb: u64 = bb;
    if piece_type == 0 {
        // O(1) via precomputed mask instead of generating attacks per pawn.
        let attackers: u64 = king_zone_pawn_attacker_mask(!to_move, enemy_king_sq as u8);
        let near: u64 = bb & attackers;
        proof {
            lemma_popcount_bound(near);
        }
        king_attack_units += count_bits(near) as i16 * KING_ATTACK_WEIGHT[0];
    }
    let ghost pawn_units: int = pawn_zone_units(bb, piece_type, to_move, enemy_king_sq);
    let ghost mut k: int = 0;
    let ghost mut cnt: int = 0;
    proof {
        lemma_popcount_bound(bb);
    }
    while mbb != 0
        invariant
            posmod_ok(board, bb, piece_type, to_move, enemy_king_sq),
            mg_mask == mg_table(piece_type),
            eg_mask == eg_table(piece_type),
            0 <= k <= 64,
            forall|s: u64| #[trigger] has_sq(mbb, s) == (has_sq(bb, s) && s >= k),
            0 <= pawn_units <= 64,
            popcount(bb) <= 64,
            0 <= cnt,
            cnt + popcount(mbb) == popcount(bb),
            ({
                let s = posmod_sum(board, bb, piece_type, to_move, enemy_king_zone, k);
                &&& mg_modifier == s.0
                &&& eg_modifier == s.1
                &&& mobility_score == s.2
                &&& king_attack_units == s.3 + pawn_units
            }),
            -300 * cnt <= mg_modifier <= 300 * cnt,
            -250 * cnt <= eg_modifier <= 250 * cnt,
            -256 * cnt <= mobility_score <= 256 * cnt,
            0 <= king_attack_units - pawn_units <= 320 * cnt,
        decreases mbb,
    {
        proof {
            lemma_clear_lowest(mbb);
            lemma_popcount_clear_lowest(mbb);
        }
        let i: usize = mbb.trailing_zeros() as usize;
        let ghost old_mbb: u64 = mbb;
        mbb &= mbb - 1;
        proof {
            assert(i as u64 == lowest_sq(old_mbb));
            assert(old_mbb & ((old_mbb - 1) as u64) < old_mbb) by (bit_vector)
                requires
                    old_mbb != 0,
            ;
            assert(has_sq(bb, i as u64) && i >= k);
            assert forall|s: u64| k <= s < i implies !#[trigger] has_sq(bb, s) by {
                if has_sq(bb, s) {
                    assert(has_sq(old_mbb, s));
                }
            }
            lemma_posmod_gap(board, bb, piece_type, to_move, enemy_king_zone, k, i as int);
            assert forall|s: u64| #[trigger] has_sq(mbb, s) == (has_sq(bb, s) && s >= i + 1) by {
                if has_sq(bb, s) && k <= s < i {
                    assert(has_sq(old_mbb, s));
                }
            }
        }
        let (dm, de, dms, du): (i16, i16, i16, i16) = square_terms(
            board,
            piece_type,
            to_move,
            enemy_king_zone,
            i,
            &mg_mask,
            &eg_mask,
        );
        mg_modifier += dm;
        eg_modifier += de;
        mobility_score += dms;
        king_attack_units += du;
        proof {
            k = i + 1;
            cnt = cnt + 1;
        }
    }
    proof {
        assert forall|s: u64| k <= s implies !#[trigger] has_sq(bb, s) by {
            lemma_has_zero(s);
            assert(!has_sq(mbb, s));
        }
        lemma_posmod_tail(board, bb, piece_type, to_move, enemy_king_zone, k);
    }

    (mg_modifier, eg_modifier, mobility_score, king_attack_units)
}


/// The pieces of kind `t` and the given colour.
pub open spec fn piece_bb(b: &Board, t: u8, white: bool) -> u64 {
    let side = if white {
        b.white_pieces
    } else {
        b.black_pieces
    };
    (if t == 0 {
        b.pawns
    } else if t == 1 {
        b.knights
    } else if t == 2 {
        b.bishops
    } else if t == 3 {
        b.rooks
    } else if t == 4 {
        b.queens
    } else {
        b.kings
    }) & side
}

/// What `bb_to_posmod` gives for the pieces of kind `t` and colour `white`.
pub open spec fn kind_terms(b: &Board, t: u8, white: bool, enemy_king_sq: usize, zone: u64) -> (
    int,
    int,
    int,
    int,
) {
    let bb = piece_bb(b, t, white);
    let s = posmod_sum(b, bb, t, white, zone, 64);
    (s.0, s.1, s.2, s.3 + pawn_zone_units(bb, t, white, enemy_king_sq))
}

/// The terms of one side's piece kinds below `n`, summed.
pub open spec fn side_terms(b: &Board, white: bool, enemy_king_sq: usize, zone: u64, n: int) -> (
    int,
    int,
    int,
    int,
)
    decreases n,
{
    if n <= 0 {
        (0, 0, 0, 0)
    } else {
        let prev = side_terms(b, white, enemy_king_sq, zone, n - 1);
        let d = kind_terms(b, (n - 1) as u8, white, enemy_king_sq, zone);
        (prev.0 + d.0, prev.1 + d.1, prev.2 + d.2, prev.3 + d.3)
    }
}


/// Pawns of one side beyond the first on each of the files below `n`.
pub open spec fn doubled_pawns(b: &Board, white: bool, n: int) -> int
    decreases n,
{
    if n <= 0 {
        0
    } else {
        let side = if white {
            b.white_pieces
        } else {
            b.black_pieces
        };
        let c: int = popcount(FILE_MASK[n - 1] & side & b.pawns) as int;
        doubled_pawns(b, white, n - 1) + (if c - 1 > 0 {
            c - 1
        } else {
            0
        })
    }
}

/// The square of the king of the given colour (its lowest square).
pub open spec fn king_square(b: &Board, white: bool) -> u64 {
    lowest_sq(
        b.kings & (if white {
            b.white_pieces
        } else {
            b.black_pieces
        }),
    )
}

/// The attack table is complete, both kings are on the board, and no pawn stands where the
/// pawn terms cannot score it.
pub open spec fn positional_ok(b: &Board) -> bool {
    &&& b.attack_sets@.len() == 512
    &&& b.kings & b.white_pieces != 0
    &&& b.kings & b.black_pieces != 0
    &&& forall|s: u64| #[trigger] has_sq(b.pawns & b.white_pieces, s) ==> pawn_scorable(b, true, s)
    &&& forall|s: u64| #[trigger] has_sq(b.pawns & b.black_pieces, s) ==> pawn_scorable(b, false, s)
}

/// The bonus for holding the bishop pair (for one side, with its sign).
pub open spec fn bishop_pair(b: &Board, white: bool, bonus: int) -> int {
    let side = if white {
        b.white_pieces
    } else {
        b.black_pieces
    };
    if popcount(b.bishops & side) >= 2 {
        for_side(white, bonus)
    } else {
        0
    }
}

/// The early-queen penalty: in the first six moves, each side whose queen has left its home
/// square loses `(7 - move number) * EARLY_QUEEN_FACTOR`.
pub open spec fn early_queen(b: &Board) -> int {
    if b.fullmove_number <= 6 {
        let step: int = (7 - b.fullmove_number) * EARLY_QUEEN_FACTOR;
        (if !has_sq(b.queens & b.white_pieces, 3) {
            -step
        } else {
            0
        }) + (if !has_sq(b.queens & b.black_pieces, 59) {
            step
        } else {
            0
        })
    } else {
        0
    }
}

/// The integer parts of the positional evaluation, all from White's point of view: what the
/// floating-point phase blend, king-danger curve and trade incentive are then applied to.
pub struct PositionalTerms {
    /// Non-pawn material of both sides, the phase measure.
    pub major_piece_count: i16,
    /// Middlegame terms (piece-square, pawn structure, rook files, king shield, bishop pair,
    /// doubled pawns), without king danger.
    pub mg_modifier: i16,
    /// Endgame terms.
    pub eg_modifier: i16,
    pub mobility_score: i16,
    /// White's king-attack units against the Black king, capped at MAX_KING_ATTACK_UNITS.
    pub w_king_attack_units: i16,
    /// Black's king-attack units against the White king, capped.
    pub b_king_attack_units: i16,
    /// Cover of the files around the White king, left to right.
    pub w_king_files: [FileCover; 3],
    /// Cover of the files around the Black king, left to right.
    pub b_king_files: [FileCover; 3],
    pub early_queen_mod: i16,
    /// +TEMPO_BONUS with White to move, -TEMPO_BONUS with Black.
    pub tempo: i16,
}

fn doubled_count(board: &Board, white: bool) -> (d: i16)
    ensures
        d == doubled_pawns(board, white, 8),
        0 <= d <= 8 * 63,
{
    let side: u64 = if white {
        board.white_pieces
    } else {
        board.black_pieces
    };
    let mut count: i16 = 0;
    let mut f: usize = 0;
    while f < 8
        invariant
            f <= 8,
            side == (if white {
                board.white_pieces
            } else {
                board.black_pieces
            }),
            count == doubled_pawns(board, white, f as int),
            0 <= count <= 63 * f,
        decreases 8 - f,
    {
        let file_mask: u64 = FILE_MASK[f];
        let on: u64 = file_mask & side & board.pawns;
        proof {
            lemma_popcount_bound(on);
        }
        let c: i16 = count_bits(on) as i16 - 1;
        count += if c > 0 {
            c
        } else {
            0
        };
        f = f + 1;
    }
    count
}

/// The running sums that `positional_terms` forms when it adds in the pieces of kind `i` of
/// both sides all fit an `i16`.
pub open spec fn kind_step_fits(b: &Board, i: int) -> bool {
    let wk = king_square(b, true);
    let bk = king_square(b, false);
    let w = side_terms(b, true, bk as usize, zone_bb(bk), i);
    let k = side_terms(b, false, wk as usize, zone_bb(wk), i);
    let dw = kind_terms(b, i as u8, true, bk as usize, zone_bb(bk));
    let dk = kind_terms(b, i as u8, false, wk as usize, zone_bb(wk));
    &&& fits_i16(dw.0 + dk.0) && fits_i16(w.0 + k.0 + dw.0 + dk.0)
    &&& fits_i16(dw.1 + dk.1) && fits_i16(w.1 + k.1 + dw.1 + dk.1)
    &&& fits_i16(dw.2 + dk.2) && fits_i16(w.2 + k.2 + dw.2 + dk.2)
    &&& fits_i16(w.3 + dw.3) && fits_i16(k.3 + dk.3)
}

/// Every value `positional_terms` forms on the way fits an `i16`: the material count, the
/// running sums over the piece kinds, and the middlegame and endgame sums as the bishop-pair
/// bonuses and the doubled-pawn penalty are applied.
pub open spec fn positional_fits(b: &Board) -> bool {
    let wk = king_square(b, true);
    let bk = king_square(b, false);
    let w = side_terms(b, true, bk as usize, zone_bb(bk), 6);
    let k = side_terms(b, false, wk as usize, zone_bb(wk), 6);
    let mg1 = w.0 + k.0 + bishop_pair(b, true, MG_BISHOP_PAIR_BONUS as int);
    let mg2 = mg1 + bishop_pair(b, false, MG_BISHOP_PAIR_BONUS as int);
    let eg1 = w.1 + k.1 + bishop_pair(b, true, EG_BISHOP_PAIR_BONUS as int);
    let eg2 = eg1 + bishop_pair(b, false, EG_BISHOP_PAIR_BONUS as int);
    let dd = doubled_pawns(b, true, 8) - doubled_pawns(b, false, 8);
    &&& count_material_fits(b, false, true)
    &&& forall|i: int| 0 <= i < 6 ==> #[trigger] kind_step_fits(b, i)
    &&& fits_i16(mg1) && fits_i16(mg2) && fits_i16(eg1) && fits_i16(eg2)
    &&& fits_i16(mg2 - dd * MG_DOUBLED_PAWN_PENALTY)
    &&& fits_i16(eg2 - dd * EG_DOUBLED_PAWN_PENALTY)
}

/// The middlegame terms of both sides from White's point of view: piece-square tables, pawn
/// structure, rook files and king shields of every piece, the bishop-pair bonuses and the
/// doubled-pawn penalty.
pub open spec fn mg_total(b: &Board) -> int {
    let wk = king_square(b, true);
    let bk = king_square(b, false);
    let w = side_terms(b, true, bk as usize, zone_bb(bk), 6);
    let k = side_terms(b, false, wk as usize, zone_bb(wk), 6);
    w.0 + k.0 + bishop_pair(b, true, MG_BISHOP_PAIR_BONUS as int) + bishop_pair(
        b,
        false,
        MG_BISHOP_PAIR_BONUS as int,
    ) - (doubled_pawns(b, true, 8) - doubled_pawns(b, false, 8)) * MG_DOUBLED_PAWN_PENALTY
}

/// The endgame terms of both sides from White's point of view.
pub open spec fn eg_total(b: &Board) -> int {
    let wk = king_square(b, true);
    let bk = king_square(b, false);
    let w = side_terms(b, true, bk as usize, zone_bb(bk), 6);
    let k = side_terms(b, false, wk as usize, zone_bb(wk), 6);
    w.1 + k.1 + bishop_pair(b, true, EG_BISHOP_PAIR_BONUS as int) + bishop_pair(
        b,
        false,
        EG_BISHOP_PAIR_BONUS as int,
    ) - (doubled_pawns(b, true, 8) - doubled_pawns(b, false, 8)) * EG_DOUBLED_PAWN_PENALTY
}

/// The mobility of both sides from White's point of view.
pub open spec fn mobility_total(b: &Board) -> int {
    let wk = king_square(b, true);
    let bk = king_square(b, false);
    let w = side_terms(b, true, bk as usize, zone_bb(bk), 6);
    let k = side_terms(b, false, wk as usize, zone_bb(wk), 6);
    w.2 + k.2
}

/// The integer positional terms of a position (see `PositionalTerms`).
#[verifier::rlimit(60)]
#[verifier::spinoff_prover]
pub fn positional_terms(board: &Board) -> (p: PositionalTerms)
    requires
        positional_ok(board),
        positional_fits(board),
    ensures
        ({
            let wk = king_square(board, true);
            let bk = king_square(board, false);
            let w = side_terms(board, true, bk as usize, zone_bb(bk), 6);
            let k = side_terms(board, false, wk as usize, zone_bb(wk), 6);
            &&& p.major_piece_count == side_material(board, true, false) + side_material(
                board,
                false,
                false,
            )
            &&& p.mg_modifier == mg_total(board)
            &&& p.eg_modifier == eg_total(board)
            &&& p.mobility_score == mobility_total(board)
            &&& p.w_king_attack_units == (if w.3 < MAX_KING_ATTACK_UNITS {
                w.3
            } else {
                MAX_KING_ATTACK_UNITS as int
            })
            &&& p.b_king_attack_units == (if k.3 < MAX_KING_ATTACK_UNITS {
                k.3
            } else {
                MAX_KING_ATTACK_UNITS as int
            })
            &&& forall|j: int|
                0 <= j < 3 ==> #[trigger] p.w_king_files[j] == file_cover(
                    board,
                    true,
                    (wk % 8) as int + j,
                )
            &&& forall|j: int|
                0 <= j < 3 ==> #[trigger] p.b_king_files[j] == file_cover(
                    board,
                    false,
                    (bk % 8) as int + j,
                )
            &&& p.early_queen_mod == early_queen(board)
            &&& p.tempo == (if board.side_to_move {
                TEMPO_BONUS as int
            } else {
                -(TEMPO_BONUS as int)
            })
        }),
{
    proof {
        lemma_clear_lowest(board.kings & board.white_pieces);
        lemma_clear_lowest(board.kings & board.black_pieces);
    }
    let major_piece_count: i16 = count_material(board, false, true);

    let w_bbs: [u64; 6] = [
        board.pawns & board.white_pieces,
        board.knights & board.white_pieces,
        board.bishops & board.white_pieces,
        board.rooks & board.white_pieces,
        board.queens & board.white_pieces,
        board.kings & board.white_pieces,
    ];

    let b_bbs: [u64; 6] = [
        board.pawns & board.black_pieces,
        board.knights & board.black_pieces,
        board.bishops & board.black_pieces,
        board.rooks & board.black_pieces,
        board.queens & board.black_pieces,
        board.kings & board.black_pieces,
    ];

    let mut mg_modifier: i16 = 0;
    let mut eg_modifier: i16 = 0;
    let mut mobility_score: i16 = 0;
    // raw attack units per side, summed across pieces before the nonlinear scaling.
    let mut w_king_attack_units: i16 = 0;
    let mut b_king_attack_units: i16 = 0;

    // fixed for the whole position - compute once rather than per bb_to_posmod call.
    let w_king_sq: usize = (board.kings & board.white_pieces).trailing_zeros() as usize;
    let b_king_sq: usize = (board.kings & board.black_pieces).trailing_zeros() as usize;
    let w_king_zone: u64 = king_zone_mask(w_king_sq as u8);
    let b_king_zone: u64 = king_zone_mask(b_king_sq as u8);
    let ghost wk: u64 = king_square(board, true);
    let ghost bk: u64 = king_square(board, false);

    let mut i: usize = 0;
    while i < 6
        invariant
            positional_ok(board),
            positional_fits(board),
            wk == king_square(board, true),
            bk == king_square(board, false),
            i <= 6,
            w_king_sq == wk && b_king_sq == bk && wk < 64 && bk < 64,
            w_king_zone == zone_bb(wk),
            b_king_zone == zone_bb(bk),
            forall|t: int| 0 <= t < 6 ==> #[trigger] w_bbs[t] == piece_bb(board, t as u8, true),
            forall|t: int| 0 <= t < 6 ==> #[trigger] b_bbs[t] == piece_bb(board, t as u8, false),
            ({
                let w = side_terms(board, true, b_king_sq, b_king_zone, i as int);
                let k = side_terms(board, false, w_king_sq, w_king_zone, i as int);
                &&& mg_modifier == w.0 + k.0
                &&& eg_modifier == w.1 + k.1
                &&& mobility_score == w.2 + k.2
                &&& w_king_attack_units == w.3
                &&& b_king_attack_units == k.3
            }),
        decreases 6 - i,
    {
        proof {
            assert(kind_step_fits(board, i as int));
            assert(w_bbs[i as int] == piece_bb(board, i as u8, true));
            assert(b_bbs[i as int] == piece_bb(board, i as u8, false));
            if i == 0 {
                assert forall|s: u64| #[trigger] has_sq(w_bbs[0], s) implies pawn_scorable(
                    board,
                    true,
                    s,
                ) by {
                    assert(has_sq(board.pawns & board.white_pieces, s));
                }
                assert forall|s: u64| #[trigger] has_sq(b_bbs[0], s) implies pawn_scorable(
                    board,
                    false,
                    s,
                ) by {
                    assert(has_sq(board.pawns & board.black_pieces, s));
                }
            }
        }
        let (w_mg, w_eg, w_ms, w_au): (i16, i16, i16, i16) = bb_to_posmod(
            w_bbs[i],
            i as u8,
            true,
            board,
            b_king_sq,
            b_king_zone,
        );
        let (b_mg, b_eg, b_ms, b_au): (i16, i16, i16, i16) = bb_to_posmod(
            b_bbs[i],
            i as u8,
            false,
            board,
            w_king_sq,
            w_king_zone,
        );
        mg_modifier += w_mg + b_mg;
        eg_modifier += w_eg + b_eg;
        mobility_score += w_ms + b_ms;
        w_king_attack_units += w_au;
        b_king_attack_units += b_au;
        i = i + 1;
    }

    // king safety: attack units are clamped before the nonlinear scaling.
    let w_units: i16 = if w_king_attack_units < MAX_KING_ATTACK_UNITS {
        w_king_attack_units
    } else {
        MAX_KING_ATTACK_UNITS
    };
    let b_units: i16 = if b_king_attack_units < MAX_KING_ATTACK_UNITS {
        b_king_attack_units
    } else {
        MAX_KING_ATTACK_UNITS
    };
    // open/semi-open files amplify existing pressure rather than adding danger on their own.
    let w_king_files: [FileCover; 3] = king_file_weakness(w_king_sq as u8, true, board);
    let b_king_files: [FileCover; 3] = king_file_weakness(b_king_sq as u8, false, board);

    // give a bonus for bishop pair
    let w_bishops: u32 = count_bits(board.bishops & board.white_pieces);
    let b_bishops: u32 = count_bits(board.bishops & board.black_pieces);
    if w_bishops >= 2 {
        mg_modifier += MG_BISHOP_PAIR_BONUS;
        eg_modifier += EG_BISHOP_PAIR_BONUS;
    }
    if b_bishops >= 2 {
        mg_modifier -= MG_BISHOP_PAIR_BONUS;
        eg_modifier -= EG_BISHOP_PAIR_BONUS;
    }

    // give a penalty for doubled pawns
    let wdb_pawns_count: i16 = doubled_count(board, true);
    let bdb_pawns_count: i16 = doubled_count(board, false);
    mg_modifier -= (wdb_pawns_count - bdb_pawns_count) * MG_DOUBLED_PAWN_PENALTY;
    eg_modifier -= (wdb_pawns_count - bdb_pawns_count) * EG_DOUBLED_PAWN_PENALTY;

    // give a penalty for early queen moves.
    let mut early_queen_mod: i16 = 0;
    if board.fullmove_number <= 6 {
        let w_queen_home: bool = (board.queens & board.white_pieces) & 0x0000000000000008 != 0;
        let b_queen_home: bool = (board.queens & board.black_pieces) & 0x0800000000000000 != 0;
        proof {
            let wq: u64 = board.queens & board.white_pieces;
            let bq: u64 = board.queens & board.black_pieces;
            assert((wq & 0x0000000000000008u64 != 0) == has_sq(wq, 3)) by (bit_vector);
            assert((bq & 0x0800000000000000u64 != 0) == has_sq(bq, 59)) by (bit_vector);
        }
        if !w_queen_home {
            early_queen_mod -= ((7 - board.fullmove_number) as i16) * EARLY_QUEEN_FACTOR;
        }
        if !b_queen_home {
            early_queen_mod += ((7 - board.fullmove_number) as i16) * EARLY_QUEEN_FACTOR;
        }
    }

    let tempo: i16 = if board.side_to_move {
        TEMPO_BONUS
    } else {
        -TEMPO_BONUS
    };

    PositionalTerms {
        major_piece_count,
        mg_modifier,
        eg_modifier,
        mobility_score,
        w_king_attack_units: w_units,
        b_king_attack_units: b_units,
        w_king_files,
        b_king_files,
        early_queen_mod,
        tempo,
    }
}

/// Whether `positional_terms` can score the position: a complete attack table, both kings on
/// the board, every pawn scorable (`positional_ok`), and every sum it forms within an `i16`
/// (`positional_fits`).
pub fn can_score(board: &Board) -> (r: bool)
    ensures
        r == (positional_ok(board) && positional_fits(board)),
{
    if board.attack_sets.len() != 512 {
        return false;
    }
    let w: u64 = board.white_pieces;
    let bl: u64 = board.black_pieces;
    if board.kings & w == 0 || board.kings & bl == 0 {
        return false;
    }
    let wp: u64 = board.pawns & w;
    let bp: u64 = board.pawns & bl;
    let mut s: u64 = 0;
    while s < 64
        invariant
            s <= 64,
            wp == board.pawns & board.white_pieces,
            bp == board.pawns & board.black_pieces,
            forall|t: u64| t < s && #[trigger] has_sq(wp, t) ==> pawn_scorable(board, true, t),
            forall|t: u64| t < s && #[trigger] has_sq(bp, t) ==> pawn_scorable(board, false, t),
        decreases 64 - s,
    {
        if (wp >> s) & 1 == 1 {
            assert(has_sq(wp, s));
            if s / 8 == 0 && pawn_passed(s as u8, true, board) {
                assert(!pawn_scorable(board, true, s));
                return false;
            }
            if s >= 56 && !pawn_isolated(s as u8, true, board) {
                assert(!pawn_scorable(board, true, s));
                return false;
            }
        }
        if (bp >> s) & 1 == 1 {
            assert(has_sq(bp, s));
            if s / 8 == 7 && pawn_passed(s as u8, false, board) {
                assert(!pawn_scorable(board, false, s));
                return false;
            }
            if s < 8 && !pawn_isolated(s as u8, false, board) {
                assert(!pawn_scorable(board, false, s));
                return false;
            }
        }
        s = s + 1;
    }
    terms_fit(board)
}

/// An objective (White's) score seen from the side to move: positive is good for them.
pub fn relative_score(objective: i16, white_to_move: bool) -> (r: i16)
    requires
        !white_to_move ==> objective > i16::MIN,
    ensures
        r == (if white_to_move {
            objective as int
        } else {
            -objective
        }),
{
    if white_to_move {
        objective
    } else {
        -objective
    }
}

pub(crate) proof fn lemma_popcount_disjoint(a: u64, b: u64)
    requires
        a & b == 0,
    ensures
        popcount(a | b) == popcount(a) + popcount(b),
    decreases a + b,
{
    if a == 0 {
        assert(0u64 | b == b) by (bit_vector);
    } else if b == 0 {
        assert(a | 0u64 == a) by (bit_vector);
    } else {
        assert((a | b) % 2 == a % 2 + b % 2 && (a | b) / 2 == (a / 2) | (b / 2) && (a / 2) & (b
            / 2) == 0 && (a | b) != 0) by (bit_vector)
            requires
                a & b == 0,
                a != 0,
        ;
        lemma_popcount_disjoint(a / 2, b / 2);
    }
}

proof fn lemma_posmod_sum_disjoint(
    b: &Board,
    bb1: u64,
    bb2: u64,
    t: u8,
    white: bool,
    zone: u64,
    n: int,
)
    requires
        bb1 & bb2 == 0,
    ensures
        ({
            let u = posmod_sum(b, bb1 | bb2, t, white, zone, n);
            let x = posmod_sum(b, bb1, t, white, zone, n);
            let y = posmod_sum(b, bb2, t, white, zone, n);
            u == (x.0 + y.0, x.1 + y.1, x.2 + y.2, x.3 + y.3)
        }),
    decreases n,
{
    if n > 0 {
        lemma_posmod_sum_disjoint(b, bb1, bb2, t, white, zone, n - 1);
        let s = (n - 1) as u64;
        lemma_has_or(bb1, bb2, s);
        lemma_has_and(bb1, bb2, s);
        lemma_has_zero(s);
    }
}

/// The terms of one piece kind and colour add up over disjoint sets of squares: scoring the
/// pieces of `bb1 | bb2` gives the sum of scoring those of `bb1` and those of `bb2` (the
/// (middlegame, endgame, mobility, king-attack units) that `bb_to_posmod` returns), and an
/// empty set scores nothing.
pub proof fn law_posmod_additive(
    b: &Board,
    bb1: u64,
    bb2: u64,
    t: u8,
    white: bool,
    enemy_king_sq: usize,
    zone: u64,
)
    requires
        bb1 & bb2 == 0,
    ensures
        ({
            let u = posmod_sum(b, bb1 | bb2, t, white, zone, 64);
            let x = posmod_sum(b, bb1, t, white, zone, 64);
            let y = posmod_sum(b, bb2, t, white, zone, 64);
            &&& u.0 == x.0 + y.0
            &&& u.1 == x.1 + y.1
            &&& u.2 == x.2 + y.2
            &&& u.3 + pawn_zone_units(bb1 | bb2, t, white, enemy_king_sq) == x.3
                + pawn_zone_units(bb1, t, white, enemy_king_sq) + y.3 + pawn_zone_units(
                bb2,
                t,
                white,
                enemy_king_sq,
            )
        }),
        posmod_sum(b, 0, t, white, zone, 64) == (0int, 0int, 0int, 0int),
        pawn_zone_units(0, t, white, enemy_king_sq) == 0,
{
    lemma_posmod_sum_disjoint(b, bb1, bb2, t, white, zone, 64);
    let m = zone_attackers(!white, enemy_king_sq as u64);
    assert((bb1 | bb2) & m == (bb1 & m) | (bb2 & m) && (bb1 & m) & (bb2 & m) == 0) by (bit_vector)
        requires
            bb1 & bb2 == 0,
    ;
    lemma_popcount_disjoint(bb1 & m, bb2 & m);
    assert(0u64 | 0u64 == 0u64 && 0u64 & 0u64 == 0u64 && 0u64 & m == 0u64) by (bit_vector);
    lemma_posmod_sum_disjoint(b, 0, 0, t, white, zone, 64);
}

/// Two positions that differ at most in the side to move.
pub open spec fn same_but_side(b: &Board, b2: &Board) -> bool {
    &&& b.pawns == b2.pawns
    &&& b.knights == b2.knights
    &&& b.bishops == b2.bishops
    &&& b.rooks == b2.rooks
    &&& b.queens == b2.queens
    &&& b.kings == b2.kings
    &&& b.white_pieces == b2.white_pieces
    &&& b.black_pieces == b2.black_pieces
    &&& b.fullmove_number == b2.fullmove_number
    &&& b.en_passant == b2.en_passant
    &&& b.zobrist_hash == b2.zobrist_hash
    &&& b.attack_sets@ == b2.attack_sets@
}

proof fn lemma_piece_terms_same(b: &Board, b2: &Board, t: u8, white: bool, zone: u64, sq: u64)
    requires
        same_but_side(b, b2),
    ensures
        piece_terms(b, t, white, zone, sq) == piece_terms(b2, t, white, zone, sq),
{
    assert(pawns_of(b, white) == pawns_of(b2, white));
    assert(enemy_pawns(b, white) == enemy_pawns(b2, white));
    assert(passed_at(b, white, sq) == passed_at(b2, white, sq));
    assert(isolated_at(b, white, sq) == isolated_at(b2, white, sq));
    assert(backward_at(b, white, sq) == backward_at(b2, white, sq));
    assert(b.attack_set(t, white, sq) == b2.attack_set(t, white, sq));
}

proof fn lemma_posmod_sum_same(
    b: &Board,
    b2: &Board,
    bb: u64,
    t: u8,
    white: bool,
    zone: u64,
    n: int,
)
    requires
        same_but_side(b, b2),
    ensures
        posmod_sum(b, bb, t, white, zone, n) == posmod_sum(b2, bb, t, white, zone, n),
    decreases n,
{
    if n > 0 {
        lemma_posmod_sum_same(b, b2, bb, t, white, zone, n - 1);
        lemma_piece_terms_same(b, b2, t, white, zone, (n - 1) as u64);
    }
}

proof fn lemma_side_terms_same(
    b: &Board,
    b2: &Board,
    white: bool,
    enemy_king_sq: usize,
    zone: u64,
    n: int,
)
    requires
        same_but_side(b, b2),
    ensures
        side_terms(b, white, enemy_king_sq, zone, n) == side_terms(b2, white, enemy_king_sq, zone, n),
    decreases n,
{
    if n > 0 {
        lemma_side_terms_same(b, b2, white, enemy_king_sq, zone, n - 1);
        let t = (n - 1) as u8;
        assert(piece_bb(b, t, white) == piece_bb(b2, t, white));
        lemma_posmod_sum_same(b, b2, piece_bb(b, t, white), t, white, zone, 64);
    }
}

proof fn lemma_doubled_same(b: &Board, b2: &Board, white: bool, n: int)
    requires
        same_but_side(b, b2),
    ensures
        doubled_pawns(b, white, n) == doubled_pawns(b2, white, n),
    decreases n,
{
    if n > 0 {
        lemma_doubled_same(b, b2, white, n - 1);
    }
}

/// Whose move it is changes only the tempo term: two positions that differ only in the side
/// to move have the same material and every integer positional term the same (all that
/// `positional_terms` reports but `tempo`, which it sets to +TEMPO_BONUS with White to move
/// and -TEMPO_BONUS with Black), and either both or neither can be scored.
pub proof fn law_side_to_move_changes_only_tempo(b: &Board, b2: &Board)
    requires
        same_but_side(b, b2),
    ensures
        forall|w: bool, p: bool| #[trigger] side_material(b, w, p) == side_material(b2, w, p),
        forall|w: bool, k: usize, z: u64|
            #[trigger] side_terms(b, w, k, z, 6) == side_terms(b2, w, k, z, 6),
        forall|w: bool, bonus: int| #[trigger] bishop_pair(b, w, bonus) == bishop_pair(b2, w, bonus),
        forall|w: bool| #[trigger] doubled_pawns(b, w, 8) == doubled_pawns(b2, w, 8),
        forall|w: bool| #[trigger] king_square(b, w) == king_square(b2, w),
        forall|w: bool, f: int| #[trigger] file_cover(b, w, f) == file_cover(b2, w, f),
        early_queen(b) == early_queen(b2),
        positional_ok(b) == positional_ok(b2),
        positional_fits(b) == positional_fits(b2),
{
    assert(king_square(b, true) == king_square(b2, true));
    assert(king_square(b, false) == king_square(b2, false));
    assert forall|i: int|
        #![trigger kind_step_fits(b, i)]
        #![trigger kind_step_fits(b2, i)]
        0 <= i < 6 implies kind_step_fits(b, i) == kind_step_fits(b2, i) by {
        let wk = king_square(b, true);
        let bk = king_square(b, false);
        lemma_side_terms_same(b, b2, true, bk as usize, zone_bb(bk), i);
        lemma_side_terms_same(b, b2, false, wk as usize, zone_bb(wk), i);
        let t = i as u8;
        assert(piece_bb(b, t, true) == piece_bb(b2, t, true));
        assert(piece_bb(b, t, false) == piece_bb(b2, t, false));
        lemma_posmod_sum_same(b, b2, piece_bb(b, t, true), t, true, zone_bb(bk), 64);
        lemma_posmod_sum_same(b, b2, piece_bb(b, t, false), t, false, zone_bb(wk), 64);
        assert(kind_terms(b, t, true, bk as usize, zone_bb(bk)) == kind_terms(
            b2,
            t,
            true,
            bk as usize,
            zone_bb(bk),
        ));
        assert(kind_terms(b, t, false, wk as usize, zone_bb(wk)) == kind_terms(
            b2,
            t,
            false,
            wk as usize,
            zone_bb(wk),
        ));
    }
    lemma_doubled_same(b, b2, true, 8);
    lemma_doubled_same(b, b2, false, 8);
    {
        let wk = king_square(b, true);
        let bk = king_square(b, false);
        lemma_side_terms_same(b, b2, true, bk as usize, zone_bb(bk), 6);
        lemma_side_terms_same(b, b2, false, wk as usize, zone_bb(wk), 6);
    }
    assert(count_material_fits(b, false, true) == count_material_fits(b2, false, true));
    assert(bishop_pair(b, true, MG_BISHOP_PAIR_BONUS as int) == bishop_pair(b2, true, MG_BISHOP_PAIR_BONUS as int));
    assert(bishop_pair(b, false, MG_BISHOP_PAIR_BONUS as int) == bishop_pair(b2, false, MG_BISHOP_PAIR_BONUS as int));
    assert(bishop_pair(b, true, EG_BISHOP_PAIR_BONUS as int) == bishop_pair(b2, true, EG_BISHOP_PAIR_BONUS as int));
    assert(bishop_pair(b, false, EG_BISHOP_PAIR_BONUS as int) == bishop_pair(b2, false, EG_BISHOP_PAIR_BONUS as int));
    assert forall|w: bool, s: u64| #[trigger] pawn_scorable(b, w, s) == pawn_scorable(b2, w, s) by {
        assert(pawns_of(b, w) == pawns_of(b2, w));
        assert(enemy_pawns(b, w) == enemy_pawns(b2, w));
        assert(passed_at(b, w, s) == passed_at(b2, w, s));
        assert(isolated_at(b, w, s) == isolated_at(b2, w, s));
    }
    assert forall|w: bool, k: usize, z: u64|
        #[trigger] side_terms(b, w, k, z, 6) == side_terms(b2, w, k, z, 6) by {
        lemma_side_terms_same(b, b2, w, k, z, 6);
    }
    assert forall|w: bool| #[trigger] doubled_pawns(b, w, 8) == doubled_pawns(b2, w, 8) by {
        lemma_doubled_same(b, b2, w, 8);
    }
    assert forall|w: bool, f: int| #[trigger] file_cover(b, w, f) == file_cover(b2, w, f) by {
        assert(pawns_of(b, w) == pawns_of(b2, w));
    }
}

/// Swapping the colours of all pieces swaps the two sides' material, so the net material
/// (`count_material` with `total` false) changes sign and the total stays.
pub proof fn law_material_swaps_with_colours(b: &Board, b2: &Board, pawns: bool)
    requires
        b2.pawns == b.pawns,
        b2.knights == b.knights,
        b2.bishops == b.bishops,
        b2.rooks == b.rooks,
        b2.queens == b.queens,
        b2.kings == b.kings,
        b2.white_pieces == b.black_pieces,
        b2.black_pieces == b.white_pieces,
    ensures
        side_material(b2, true, pawns) == side_material(b, false, pawns),
        side_material(b2, false, pawns) == side_material(b, true, pawns),
        side_material(b2, true, pawns) - side_material(b2, false, pawns) == -(side_material(
            b,
            true,
            pawns,
        ) - side_material(b, false, pawns)),
{
}


fn in_i16(x: i64) -> (r: bool)
    ensures
        r == fits_i16(x as int),
{
    -32768 <= x && x <= 32767
}

/// Whether every value `count_material` forms fits an `i16` (see `count_material_fits`).
pub fn material_fits(board: &Board, pawns: bool, total: bool) -> (r: bool)
    ensures
        r == count_material_fits(board, pawns, total),
{
    let w: u64 = board.white_pieces;
    let k: u64 = board.black_pieces;
    let m1: i64 = if pawns {
        100 * count_bits(board.pawns & w) as i64
    } else {
        0
    };
    let m2: i64 = if pawns {
        if total {
            m1 + 100 * count_bits(board.pawns & k) as i64
        } else {
            m1 - 100 * count_bits(board.pawns & k) as i64
        }
    } else {
        0
    };
    let m3: i64 = m2 + 300 * count_bits(board.knights & w) as i64;
    let m4: i64 = m3 + 300 * count_bits(board.bishops & w) as i64;
    let m5: i64 = m4 + 500 * count_bits(board.rooks & w) as i64;
    let wq: i64 = 900 * count_bits(board.queens & w) as i64;
    let m6: i64 = m5 + wq;
    let b1: i64 = 300 * count_bits(board.knights & k) as i64;
    let b2: i64 = b1 + 300 * count_bits(board.bishops & k) as i64;
    let b3: i64 = b2 + 500 * count_bits(board.rooks & k) as i64;
    let bq: i64 = 900 * count_bits(board.queens & k) as i64;
    let b4: i64 = b3 + bq;
    let last: i64 = if total {
        m6 + b4
    } else {
        m6 - b4
    };
    in_i16(m1) && in_i16(m2) && in_i16(m3) && in_i16(m4) && in_i16(m5) && in_i16(wq) && in_i16(
        m6,
    ) && in_i16(b2) && in_i16(b3) && in_i16(bq) && in_i16(b4) && in_i16(last)
}

/// Whether every sum `positional_terms` forms fits an `i16` (see `positional_fits`), for a
/// position it can otherwise score.
#[verifier::rlimit(60)]
#[verifier::spinoff_prover]
fn terms_fit(board: &Board) -> (r: bool)
    requires
        positional_ok(board),
    ensures
        r == positional_fits(board),
{
    proof {
        lemma_clear_lowest(board.kings & board.white_pieces);
        lemma_clear_lowest(board.kings & board.black_pieces);
    }
    if !material_fits(board, false, true) {
        return false;
    }
    let w_bbs: [u64; 6] = [
        board.pawns & board.white_pieces,
        board.knights & board.white_pieces,
        board.bishops & board.white_pieces,
        board.rooks & board.white_pieces,
        board.queens & board.white_pieces,
        board.kings & board.white_pieces,
    ];
    let b_bbs: [u64; 6] = [
        board.pawns & board.black_pieces,
        board.knights & board.black_pieces,
        board.bishops & board.black_pieces,
        board.rooks & board.black_pieces,
        board.queens & board.black_pieces,
        board.kings & board.black_pieces,
    ];
    let w_king_sq: usize = (board.kings & board.white_pieces).trailing_zeros() as usize;
    let b_king_sq: usize = (board.kings & board.black_pieces).trailing_zeros() as usize;
    let w_king_zone: u64 = king_zone_mask(w_king_sq as u8);
    let b_king_zone: u64 = king_zone_mask(b_king_sq as u8);
    let ghost wk: u64 = king_square(board, true);
    let ghost bk: u64 = king_square(board, false);
    let mut mg: i64 = 0;
    let mut eg: i64 = 0;
    let mut ms: i64 = 0;
    let mut wu: i64 = 0;
    let mut bu: i64 = 0;
    let mut i: usize = 0;
    while i < 6
        invariant
            positional_ok(board),
            count_material_fits(board, false, true),
            wk == king_square(board, true),
            bk == king_square(board, false),
            i <= 6,
            w_king_sq == wk && b_king_sq == bk && wk < 64 && bk < 64,
            w_king_zone == zone_bb(wk),
            b_king_zone == zone_bb(bk),
            forall|t: int| 0 <= t < 6 ==> #[trigger] w_bbs[t] == piece_bb(board, t as u8, true),
            forall|t: int| 0 <= t < 6 ==> #[trigger] b_bbs[t] == piece_bb(board, t as u8, false),
            forall|j: int| 0 <= j < i ==> #[trigger] kind_step_fits(board, j),
            ({
                let w = side_terms(board, true, b_king_sq, b_king_zone, i as int);
                let k = side_terms(board, false, w_king_sq, w_king_zone, i as int);
                &&& mg == w.0 + k.0
                &&& eg == w.1 + k.1
                &&& ms == w.2 + k.2
                &&& wu == w.3
                &&& bu == k.3
                &&& fits_i16(mg as int) && fits_i16(eg as int) && fits_i16(ms as int)
                &&& fits_i16(wu as int) && fits_i16(bu as int)
            }),
        decreases 6 - i,
    {
        proof {
            assert(w_bbs[i as int] == piece_bb(board, i as u8, true));
            assert(b_bbs[i as int] == piece_bb(board, i as u8, false));
            if i == 0 {
                assert forall|s: u64| #[trigger] has_sq(w_bbs[0], s) implies pawn_scorable(
                    board,
                    true,
                    s,
                ) by {
                    assert(has_sq(board.pawns & board.white_pieces, s));
                }
                assert forall|s: u64| #[trigger] has_sq(b_bbs[0], s) implies pawn_scorable(
                    board,
                    false,
                    s,
                ) by {
                    assert(has_sq(board.pawns & board.black_pieces, s));
                }
            }
        }
        let (w_mg, w_eg, w_ms, w_au): (i16, i16, i16, i16) = bb_to_posmod(
            w_bbs[i],
            i as u8,
            true,
            board,
            b_king_sq,
            b_king_zone,
        );
        let (b_mg, b_eg, b_ms, b_au): (i16, i16, i16, i16) = bb_to_posmod(
            b_bbs[i],
            i as u8,
            false,
            board,
            w_king_sq,
            w_king_zone,
        );
        let dmg: i64 = w_mg as i64 + b_mg as i64;
        let deg: i64 = w_eg as i64 + b_eg as i64;
        let dms: i64 = w_ms as i64 + b_ms as i64;
        let ok: bool = in_i16(dmg) && in_i16(mg + dmg) && in_i16(deg) && in_i16(eg + deg)
            && in_i16(dms) && in_i16(ms + dms) && in_i16(wu + w_au as i64) && in_i16(
            bu + b_au as i64,
        );
        assert(ok == kind_step_fits(board, i as int));
        if !ok {
            return false;
        }
        mg = mg + dmg;
        eg = eg + deg;
        ms = ms + dms;
        wu = wu + w_au as i64;
        bu = bu + b_au as i64;
        i = i + 1;
    }
    let wpair: bool = count_bits(board.bishops & board.white_pieces) >= 2;
    let bpair: bool = count_bits(board.bishops & board.black_pieces) >= 2;
    let mg1: i64 = if wpair {
        mg + 30
    } else {
        mg
    };
    let mg2: i64 = if bpair {
        mg1 - 30
    } else {
        mg1
    };
    let eg1: i64 = if wpair {
        eg + 50
    } else {
        eg
    };
    let eg2: i64 = if bpair {
        eg1 - 50
    } else {
        eg1
    };
    let dd: i64 = doubled_count(board, true) as i64 - doubled_count(board, false) as i64;
    in_i16(mg1) && in_i16(mg2) && in_i16(eg1) && in_i16(eg2) && in_i16(mg2 - dd * 10) && in_i16(
        eg2 - dd * 20,
    )
}

} // verus!
