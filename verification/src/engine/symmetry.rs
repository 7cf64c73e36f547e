use vstd::prelude::*;
use crate::engine::bitboard::{has_sq, popcount};
use crate::engine::board::Board;
use crate::engine::eval::{
    bishop_pair, doubled_pawns, early_queen, lemma_popcount_disjoint, mg_table,
    eg_table, FILE_MASK, passed_at, isolated_at, backward_at, pawn_structure, rook_file_term,
    mobility_term, piece_terms, passed_bonus_rank, passed_bonus_index, posmod_sum, kind_terms,
    side_terms, piece_bb, mg_total, eg_total, mobility_total, king_square,
};
use crate::engine::utils::geometry::{on_file, on_rank};
use crate::engine::utils::king::{
    shield_score, file_shield, shield_tier, pawn_on_rank, rank_ahead, zone_bb,
};
use crate::engine::utils::pawns::{
    pawns_of, enemy_pawns, passed_span, adjacent_file, backward_span, pawn_attack, stop_square,
};

verus! {

/// A bitboard flipped top to bottom: square `s` goes to `s ^ 56` (a1 to a8, e2 to e7).
pub open spec fn flip(x: u64) -> u64 {
    ((x >> 56u64) & 0xFFu64) | ((x >> 40u64) & 0xFF00u64) | ((x >> 24u64) & 0xFF0000u64) | ((x
        >> 8u64) & 0xFF000000u64) | ((x << 8u64) & 0xFF00000000u64) | ((x << 24u64)
        & 0xFF0000000000u64) | ((x << 40u64) & 0xFF000000000000u64) | ((x << 56u64)
        & 0xFF00000000000000u64)
}

/// The mirrored square holds exactly what the square held.
pub proof fn lemma_flip_has_sq(x: u64, s: u64)
    by (bit_vector)
    requires
        s < 64,
    ensures
        has_sq(flip(x), s ^ 56u64) == has_sq(x, s),
        has_sq(flip(x), s) == has_sq(x, s ^ 56u64),
{
}

proof fn lemma_flip_and(a: u64, b: u64)
    by (bit_vector)
    ensures
        flip(a & b) == flip(a) & flip(b),
        flip(a | b) == flip(a) | flip(b),
{
}

proof fn lemma_popcount_double(z: u64)
    requires
        z < 0x8000_0000_0000_0000u64,
    ensures
        popcount((z * 2) as u64) == popcount(z),
{
    let y: u64 = (z * 2) as u64;
    if z != 0 {
        assert(y != 0 && y % 2 == 0 && y / 2 == z);
    }
}

proof fn lemma_popcount_mul256(y: u64)
    requires
        y < 0x0100_0000_0000_0000u64,
    ensures
        popcount((y * 256) as u64) == popcount(y),
{
    lemma_popcount_double(y);
    lemma_popcount_double((y * 2) as u64);
    lemma_popcount_double((y * 4) as u64);
    lemma_popcount_double((y * 8) as u64);
    lemma_popcount_double((y * 16) as u64);
    lemma_popcount_double((y * 32) as u64);
    lemma_popcount_double((y * 64) as u64);
    lemma_popcount_double((y * 128) as u64);
}

proof fn lemma_popcount_low_byte(x: u64)
    ensures
        popcount(x) == popcount(x & 0xFFu64) + popcount(x >> 8u64),
{
    let hi: u64 = x >> 8u64;
    assert(hi < 0x0100_0000_0000_0000u64 && x == (x & 0xFFu64) | ((hi * 256) as u64) && (x
        & 0xFFu64) & ((hi * 256) as u64) == 0) by (bit_vector)
        requires
            hi == x >> 8u64,
    ;
    lemma_popcount_disjoint(x & 0xFFu64, (hi * 256) as u64);
    lemma_popcount_mul256(hi);
}

/// The set squares of a bitboard, counted rank by rank.
pub open spec fn rank_counts(x: u64) -> nat {
    popcount(x & 0xFFu64) + popcount((x >> 8u64) & 0xFFu64) + popcount((x >> 16u64) & 0xFFu64)
        + popcount((x >> 24u64) & 0xFFu64) + popcount((x >> 32u64) & 0xFFu64) + popcount((x
        >> 40u64) & 0xFFu64) + popcount((x >> 48u64) & 0xFFu64) + popcount((x >> 56u64)
        & 0xFFu64)
}

proof fn lemma_popcount_ranks(x: u64)
    ensures
        popcount(x) == rank_counts(x),
{
    lemma_popcount_low_byte(x);
    lemma_popcount_low_byte(x >> 8u64);
    lemma_popcount_low_byte(x >> 16u64);
    lemma_popcount_low_byte(x >> 24u64);
    lemma_popcount_low_byte(x >> 32u64);
    lemma_popcount_low_byte(x >> 40u64);
    lemma_popcount_low_byte(x >> 48u64);
    lemma_popcount_low_byte(x >> 56u64);
    assert((x >> 8u64) >> 8u64 == x >> 16u64 && (x >> 16u64) >> 8u64 == x >> 24u64 && (x
        >> 24u64) >> 8u64 == x >> 32u64 && (x >> 32u64) >> 8u64 == x >> 40u64 && (x >> 40u64)
        >> 8u64 == x >> 48u64 && (x >> 48u64) >> 8u64 == x >> 56u64 && (x >> 56u64) >> 8u64
        == 0 && (x >> 56u64) & 0xFFu64 == x >> 56u64) by (bit_vector);
}

/// Flipping a bitboard keeps the number of squares it holds.
pub proof fn lemma_popcount_flip(x: u64)
    ensures
        popcount(flip(x)) == popcount(x),
{
    lemma_popcount_ranks(x);
    lemma_popcount_ranks(flip(x));
    let y = flip(x);
    assert(y & 0xFFu64 == (x >> 56u64) & 0xFFu64 && (y >> 8u64) & 0xFFu64 == (x >> 48u64)
        & 0xFFu64 && (y >> 16u64) & 0xFFu64 == (x >> 40u64) & 0xFFu64 && (y >> 24u64) & 0xFFu64
        == (x >> 32u64) & 0xFFu64 && (y >> 32u64) & 0xFFu64 == (x >> 24u64) & 0xFFu64 && (y
        >> 40u64) & 0xFFu64 == (x >> 16u64) & 0xFFu64 && (y >> 48u64) & 0xFFu64 == (x >> 8u64)
        & 0xFFu64 && (y >> 56u64) & 0xFFu64 == x & 0xFFu64) by (bit_vector)
        requires
            y == flip(x),
    ;
}

/// The mirrored square `s ^ 56` is the same file on the mirrored rank.
pub proof fn lemma_sq_flip(s: u64)
    by (bit_vector)
    requires
        s < 64,
    ensures
        s ^ 56u64 < 64,
        (s ^ 56u64) / 8 == 7 - s / 8,
        (s ^ 56u64) % 8 == s % 8,
        (s ^ 56u64) ^ 56u64 == s,
        63 - (s ^ 56u64) == (s / 8) * 8 + 7 - s % 8,
{
}

proof fn lemma_table_row_symmetric(tab: [i8; 64])
    requires
        forall|r: int, f: int|
            0 <= r < 8 && 0 <= f < 8 ==> #[trigger] tab[r * 8 + f] == tab[r * 8 + 7 - f],
    ensures
        forall|s: u64| s < 64 ==> #[trigger] tab[(63 - (s ^ 56u64)) as int] == tab[s as int],
{
    assert forall|s: u64| s < 64 implies #[trigger] tab[(63 - (s ^ 56u64)) as int] == tab[s as int] by {
        lemma_sq_flip(s);
        let r = (s / 8) as int;
        let f = (s % 8) as int;
        assert(s == r * 8 + f);
        assert(tab[r * 8 + (7 - f)] == tab[r * 8 + 7 - (7 - f)]);
    }
}

/// Every piece-square table reads the same from the mirrored square on the other side: the
/// tables are symmetric between the a- and h-side of the board.
pub proof fn lemma_tables_mirror(t: u8, s: u64)
    requires
        s < 64,
    ensures
        mg_table(t)[(63 - (s ^ 56u64)) as int] == mg_table(t)[s as int],
        eg_table(t)[(63 - (s ^ 56u64)) as int] == eg_table(t)[s as int],
{
    assert forall|tt: u8| #![trigger mg_table(tt)]
        forall|r: int, f: int|
            0 <= r < 8 && 0 <= f < 8 ==> #[trigger] mg_table(tt)[r * 8 + f] == mg_table(tt)[r * 8 + 7 - f]
            && eg_table(tt)[r * 8 + f] == eg_table(tt)[r * 8 + 7 - f] by {
        assert forall|r: int, f: int|
            0 <= r < 8 && 0 <= f < 8 implies #[trigger] mg_table(tt)[r * 8 + f] == mg_table(tt)[r
            * 8 + 7 - f] && eg_table(tt)[r * 8 + f] == eg_table(tt)[r * 8 + 7 - f] by {
            assert(r == 0 || r == 1 || r == 2 || r == 3 || r == 4 || r == 5 || r == 6 || r == 7);
            assert(f == 0 || f == 1 || f == 2 || f == 3 || f == 4 || f == 5 || f == 6 || f == 7);
        }
    }
    lemma_table_row_symmetric(mg_table(t));
    lemma_table_row_symmetric(eg_table(t));
}

/// `b2` is `b` with the colours swapped and the board flipped top to bottom: each piece of one
/// side stands, as the same kind of piece of the other side, on the mirrored square; the other
/// side is to move, at the same move number; and each attack set of the mirrored board is the
/// flipped attack set of the mirrored piece.
pub open spec fn colour_mirror(b: &Board, b2: &Board) -> bool {
    &&& b2.pawns == flip(b.pawns)
    &&& b2.knights == flip(b.knights)
    &&& b2.bishops == flip(b.bishops)
    &&& b2.rooks == flip(b.rooks)
    &&& b2.queens == flip(b.queens)
    &&& b2.kings == flip(b.kings)
    &&& b2.white_pieces == flip(b.black_pieces)
    &&& b2.black_pieces == flip(b.white_pieces)
    &&& b2.side_to_move == !b.side_to_move
    &&& b2.fullmove_number == b.fullmove_number
    &&& forall|t: u8, w: bool, s: u64|
        1 <= t <= 4 && s < 64 ==> #[trigger] b2.attack_set(t, w, s) == flip(
            b.attack_set(t, !w, s ^ 56u64),
        )
}

/// No pawn stands on the first or the last rank, as in every position a game reaches.
pub open spec fn pawns_inside(b: &Board) -> bool {
    b.pawns & 0xFF000000000000FFu64 == 0
}

proof fn lemma_pawn_ranks(x: u64, s: u64)
    by (bit_vector)
    requires
        x & 0xFF000000000000FFu64 == 0,
        s < 64,
        (x >> s) & 1 == 1,
    ensures
        8 <= s < 56,
{
}

proof fn lemma_mirror_pawns(b: &Board, b2: &Board, w: bool)
    requires
        colour_mirror(b, b2),
    ensures
        pawns_of(b2, w) == flip(pawns_of(b, !w)),
        enemy_pawns(b2, w) == flip(enemy_pawns(b, !w)),
        b2.pawns == flip(b.pawns),
{
    lemma_flip_and(b.white_pieces, b.pawns);
    lemma_flip_and(b.black_pieces, b.pawns);
}

proof fn lemma_mirror_passed(b: &Board, b2: &Board, w: bool, sq: u64)
    requires
        colour_mirror(b, b2),
        pawns_inside(b),
        sq < 64,
    ensures
        passed_at(b2, !w, sq ^ 56u64) == passed_at(b, w, sq),
{
    lemma_mirror_pawns(b, b2, !w);
    lemma_sq_flip(sq);
    let e = enemy_pawns(b, w);
    let e2 = enemy_pawns(b2, !w);
    assert(e2 == flip(e));
    assert(e & 0xFF000000000000FFu64 == 0) by {
        assert(e == pawns_of(b, !w));
        lemma_inside_and(b.pawns, b.white_pieces);
        lemma_inside_and(b.pawns, b.black_pieces);
    }
    if passed_at(b, w, sq) {
        assert forall|s2: u64| passed_span(!w, sq ^ 56u64, s2) implies !#[trigger] has_sq(e2, s2) by {
            lemma_sq_flip(s2);
            lemma_flip_has_sq(e, s2);
            let s = s2 ^ 56u64;
            if has_sq(e2, s2) {
                lemma_pawn_ranks(e, s);
                assert(passed_span(w, sq, s));
            }
        }
    }
    if passed_at(b2, !w, sq ^ 56u64) {
        assert forall|s: u64| passed_span(w, sq, s) implies !#[trigger] has_sq(e, s) by {
            lemma_sq_flip(s);
            lemma_flip_has_sq(e, s);
            if has_sq(e, s) {
                lemma_pawn_ranks(e, s);
                assert(passed_span(!w, sq ^ 56u64, s ^ 56u64));
            }
        }
    }
}


proof fn lemma_inside_and(p: u64, x: u64)
    by (bit_vector)
    requires
        p & 0xFF000000000000FFu64 == 0,
    ensures
        (p & x) & 0xFF000000000000FFu64 == 0,
        (x & p) & 0xFF000000000000FFu64 == 0,
{
}

proof fn lemma_on_file_flip(x: u64, f: u64)
    requires
        f < 8,
    ensures
        on_file(flip(x), f) == on_file(x, f),
{
    if on_file(x, f) {
        let s = choose|s: u64| #[trigger] has_sq(x, s) && s % 8 == f;
        lemma_sq_flip(s);
        lemma_flip_has_sq(x, s);
        assert(has_sq(flip(x), s ^ 56u64) && (s ^ 56u64) % 8 == f);
    }
    if on_file(flip(x), f) {
        let s = choose|s: u64| #[trigger] has_sq(flip(x), s) && s % 8 == f;
        lemma_sq_flip(s);
        lemma_flip_has_sq(x, s);
        assert(has_sq(x, s ^ 56u64) && (s ^ 56u64) % 8 == f);
    }
}

proof fn lemma_on_rank_flip(x: u64, r: u64)
    requires
        r < 8,
    ensures
        on_rank(flip(x), (7 - r) as u64) == on_rank(x, r),
{
    if on_rank(x, r) {
        let s = choose|s: u64| #[trigger] has_sq(x, s) && s / 8 == r;
        lemma_sq_flip(s);
        lemma_flip_has_sq(x, s);
        assert(has_sq(flip(x), s ^ 56u64) && (s ^ 56u64) / 8 == (7 - r) as u64);
    }
    if on_rank(flip(x), (7 - r) as u64) {
        let s = choose|s: u64| #[trigger] has_sq(flip(x), s) && s / 8 == (7 - r) as u64;
        lemma_sq_flip(s);
        lemma_flip_has_sq(x, s);
        assert(has_sq(x, s ^ 56u64) && (s ^ 56u64) / 8 == r);
    }
}

proof fn lemma_mirror_isolated(b: &Board, b2: &Board, w: bool, sq: u64)
    requires
        colour_mirror(b, b2),
        sq < 64,
    ensures
        isolated_at(b2, !w, sq ^ 56u64) == isolated_at(b, w, sq),
{
    lemma_mirror_pawns(b, b2, !w);
    lemma_sq_flip(sq);
    let o = pawns_of(b, w);
    let o2 = pawns_of(b2, !w);
    assert(o2 == flip(o));
    if isolated_at(b, w, sq) {
        assert forall|s2: u64| adjacent_file((sq ^ 56u64) % 8, s2) implies !#[trigger] has_sq(o2, s2) by {
            lemma_sq_flip(s2);
            lemma_flip_has_sq(o, s2);
            assert(adjacent_file(sq % 8, s2 ^ 56u64));
        }
    }
    if isolated_at(b2, !w, sq ^ 56u64) {
        assert forall|s: u64| adjacent_file(sq % 8, s) implies !#[trigger] has_sq(o, s) by {
            lemma_sq_flip(s);
            lemma_flip_has_sq(o, s);
            assert(adjacent_file((sq ^ 56u64) % 8, s ^ 56u64));
        }
    }
}

proof fn lemma_stop_flip(sq: u64)
    by (bit_vector)
    requires
        8 <= sq < 56,
    ensures
        stop_square(false, sq ^ 56u64) == stop_square(true, sq) ^ 56u64,
        stop_square(true, sq ^ 56u64) == stop_square(false, sq) ^ 56u64,
        stop_square(true, sq) < 64,
        stop_square(false, sq) < 64,
{
}

proof fn lemma_pawn_attack_flip(st: u64, s: u64)
    by (bit_vector)
    requires
        st < 64,
        s < 64,
    ensures
        pawn_attack(true, st, s) == pawn_attack(false, st ^ 56u64, s ^ 56u64),
        pawn_attack(false, st, s) == pawn_attack(true, st ^ 56u64, s ^ 56u64),
{
}

proof fn lemma_mirror_backward(b: &Board, b2: &Board, w: bool, sq: u64)
    requires
        colour_mirror(b, b2),
        8 <= sq < 56,
    ensures
        backward_at(b2, !w, sq ^ 56u64) == backward_at(b, w, sq),
{
    lemma_mirror_pawns(b, b2, !w);
    lemma_mirror_pawns(b, b2, w);
    lemma_sq_flip(sq);
    lemma_stop_flip(sq);
    let o = pawns_of(b, w);
    let o2 = pawns_of(b2, !w);
    let e = enemy_pawns(b, w);
    let e2 = enemy_pawns(b2, !w);
    let sq2 = sq ^ 56u64;
    let st = stop_square(w, sq);
    let st2 = stop_square(!w, sq2);
    assert(o2 == flip(o) && e2 == flip(e));
    assert(st2 == st ^ 56u64 && st < 64);
    lemma_sq_flip(st);
    let a1 = forall|s: u64| backward_span(w, sq, s) ==> !#[trigger] has_sq(o, s);
    let a2 = forall|s2: u64| backward_span(!w, sq2, s2) ==> !#[trigger] has_sq(o2, s2);
    let x1 = exists|s: u64| pawn_attack(w, st, s) && #[trigger] has_sq(e, s);
    let x2 = exists|s2: u64| pawn_attack(!w, st2, s2) && #[trigger] has_sq(e2, s2);
    if a1 {
        assert forall|s2: u64| backward_span(!w, sq2, s2) implies !#[trigger] has_sq(o2, s2) by {
            lemma_sq_flip(s2);
            lemma_flip_has_sq(o, s2);
            assert(backward_span(w, sq, s2 ^ 56u64));
        }
    }
    if a2 {
        assert forall|s: u64| backward_span(w, sq, s) implies !#[trigger] has_sq(o, s) by {
            lemma_sq_flip(s);
            lemma_flip_has_sq(o, s);
            assert(backward_span(!w, sq2, s ^ 56u64));
        }
    }
    if x1 {
        let s = choose|s: u64| pawn_attack(w, st, s) && #[trigger] has_sq(e, s);
        lemma_sq_flip(s);
        lemma_flip_has_sq(e, s);
        lemma_pawn_attack_flip(st, s);
        assert(pawn_attack(!w, st2, s ^ 56u64) && has_sq(e2, s ^ 56u64));
    }
    if x2 {
        let s2 = choose|s2: u64| pawn_attack(!w, st2, s2) && #[trigger] has_sq(e2, s2);
        lemma_sq_flip(s2);
        lemma_flip_has_sq(e, s2);
        lemma_pawn_attack_flip(st, s2 ^ 56u64);
        assert(pawn_attack(w, st, s2 ^ 56u64) && has_sq(e, s2 ^ 56u64));
    }
    assert(backward_at(b, w, sq) == (a1 && x1));
    assert(backward_at(b2, !w, sq2) == (a2 && x2));
}


proof fn lemma_mirror_pawn_structure(b: &Board, b2: &Board, w: bool, sq: u64)
    requires
        colour_mirror(b, b2),
        pawns_inside(b),
        8 <= sq < 56,
    ensures
        pawn_structure(b2, !w, sq ^ 56u64) == pawn_structure(b, w, sq),
{
    lemma_sq_flip(sq);
    lemma_mirror_passed(b, b2, w, sq);
    lemma_mirror_isolated(b, b2, w, sq);
    lemma_mirror_backward(b, b2, w, sq);
    let rank: int = (sq / 8 + 1) as int;
    let rank2: int = ((sq ^ 56u64) / 8 + 1) as int;
    assert(rank2 == 9 - rank);
    assert(passed_bonus_rank(!w, rank2) == passed_bonus_rank(w, rank));
    assert(passed_bonus_index(!w, rank2) == passed_bonus_index(w, rank));
}

proof fn lemma_file_mask_flip(f: int)
    requires
        0 <= f < 8,
    ensures
        flip(FILE_MASK[f]) == FILE_MASK[f],
{
    assert(flip(0x0101010101010101u64) == 0x0101010101010101u64 && flip(0x0202020202020202u64)
        == 0x0202020202020202u64 && flip(0x0404040404040404u64) == 0x0404040404040404u64 && flip(
        0x0808080808080808u64,
    ) == 0x0808080808080808u64 && flip(0x1010101010101010u64) == 0x1010101010101010u64 && flip(
        0x2020202020202020u64,
    ) == 0x2020202020202020u64 && flip(0x4040404040404040u64) == 0x4040404040404040u64 && flip(
        0x8080808080808080u64,
    ) == 0x8080808080808080u64) by (bit_vector);
}

proof fn lemma_pawn_on_rank_flip(y: u64, r: int)
    ensures
        pawn_on_rank(flip(y), 9 - r) == pawn_on_rank(y, r),
{
    if 1 <= r <= 8 {
        lemma_on_rank_flip(y, (r - 1) as u64);
        assert((7 - (r - 1) as u64) as u64 == (9 - r - 1) as u64);
    }
}

proof fn lemma_mirror_shield(b: &Board, b2: &Board, w: bool, sq: u64)
    requires
        colour_mirror(b, b2),
        sq < 64,
    ensures
        shield_score(b2, !w, sq ^ 56u64) == shield_score(b, w, sq),
{
    lemma_sq_flip(sq);
    lemma_mirror_pawns(b, b2, !w);
    let o = pawns_of(b, w);
    let kr: int = (sq / 8 + 1) as int;
    assert forall|f: int| #![trigger file_shield(b, w, f, kr)]
        file_shield(b2, !w, f, 9 - kr) == file_shield(b, w, f, kr) by {
        if 1 <= f <= 8 {
            let y = FILE_MASK[f - 1] & o;
            lemma_file_mask_flip(f - 1);
            lemma_flip_and(FILE_MASK[f - 1], o);
            assert(FILE_MASK[f - 1] & pawns_of(b2, !w) == flip(y));
            lemma_pawn_on_rank_flip(y, rank_ahead(kr, w, 1));
            lemma_pawn_on_rank_flip(y, rank_ahead(kr, w, 2));
            assert(rank_ahead(9 - kr, !w, 1) == 9 - rank_ahead(kr, w, 1));
            assert(rank_ahead(9 - kr, !w, 2) == 9 - rank_ahead(kr, w, 2));
            assert(shield_tier(flip(y), 9 - kr, !w) == shield_tier(y, kr, w));
        }
    }
    let kf: int = (sq % 8 + 1) as int;
    assert(file_shield(b2, !w, kf - 1, 9 - kr) == file_shield(b, w, kf - 1, kr));
    assert(file_shield(b2, !w, kf, 9 - kr) == file_shield(b, w, kf, kr));
    assert(file_shield(b2, !w, kf + 1, 9 - kr) == file_shield(b, w, kf + 1, kr));
}

proof fn lemma_mirror_rook(b: &Board, b2: &Board, w: bool, sq: u64)
    requires
        colour_mirror(b, b2),
        sq < 64,
    ensures
        rook_file_term(b2, !w, sq ^ 56u64) == rook_file_term(b, w, sq),
{
    lemma_sq_flip(sq);
    lemma_mirror_pawns(b, b2, !w);
    lemma_on_file_flip(b.pawns, sq % 8);
    lemma_on_file_flip(pawns_of(b, w), sq % 8);
}

proof fn lemma_mirror_mobility(b: &Board, b2: &Board, t: u8, w: bool, sq: u64)
    requires
        colour_mirror(b, b2),
        sq < 64,
    ensures
        mobility_term(b2, t, !w, sq ^ 56u64) == mobility_term(b, t, w, sq),
{
    lemma_sq_flip(sq);
    if 1 <= t <= 4 {
        assert(b2.attack_set(t, !w, sq ^ 56u64) == flip(b.attack_set(t, w, sq)));
        lemma_popcount_flip(b.attack_set(t, w, sq));
    }
}

/// The three White-point-of-view terms (middlegame, endgame, mobility) of `q` are those of `p`
/// negated.
pub open spec fn negated3(p: (int, int, int, int), q: (int, int, int, int)) -> bool {
    q.0 == -p.0 && q.1 == -p.1 && q.2 == -p.2
}

proof fn lemma_mirror_piece(b: &Board, b2: &Board, t: u8, w: bool, z: u64, z2: u64, sq: u64)
    requires
        colour_mirror(b, b2),
        pawns_inside(b),
        sq < 64,
        t == 0 ==> 8 <= sq < 56,
    ensures
        negated3(piece_terms(b, t, w, z, sq), piece_terms(b2, t, !w, z2, sq ^ 56u64)),
{
    lemma_sq_flip(sq);
    lemma_tables_mirror(t, sq);
    lemma_tables_mirror(t, sq ^ 56u64);
    lemma_mirror_mobility(b, b2, t, w, sq);
    if t == 0 {
        lemma_mirror_pawn_structure(b, b2, w, sq);
    }
    if t == 3 {
        lemma_mirror_rook(b, b2, w, sq);
    }
    if t == 5 {
        lemma_mirror_shield(b, b2, w, sq);
    }
}


/// Square `a + i` of `bb` on `b` and square `c + i` of the flipped `bb` on `b2` are both
/// empty, or both hold a piece and its terms are negated.
pub open spec fn pair_ok(
    b: &Board,
    b2: &Board,
    bb: u64,
    t: u8,
    w: bool,
    z: u64,
    z2: u64,
    a: int,
    c: int,
    i: int,
) -> bool {
    let s = (a + i) as u64;
    let s2 = (c + i) as u64;
    &&& has_sq(flip(bb), s2) == has_sq(bb, s)
    &&& has_sq(bb, s) ==> negated3(piece_terms(b, t, w, z, s), piece_terms(b2, t, !w, z2, s2))
}

proof fn lemma_mirror_segment(
    b: &Board,
    b2: &Board,
    bb: u64,
    t: u8,
    w: bool,
    z: u64,
    z2: u64,
    a: int,
    c: int,
    k: int,
)
    requires
        0 <= a,
        0 <= c,
        0 <= k,
        forall|i: int| 0 <= i < k ==> #[trigger] pair_ok(b, b2, bb, t, w, z, z2, a, c, i),
    ensures
        ({
            let p0 = posmod_sum(b, bb, t, w, z, a);
            let p1 = posmod_sum(b, bb, t, w, z, a + k);
            let q0 = posmod_sum(b2, flip(bb), t, !w, z2, c);
            let q1 = posmod_sum(b2, flip(bb), t, !w, z2, c + k);
            &&& q1.0 - q0.0 == -(p1.0 - p0.0)
            &&& q1.1 - q0.1 == -(p1.1 - p0.1)
            &&& q1.2 - q0.2 == -(p1.2 - p0.2)
        }),
    decreases k,
{
    if k > 0 {
        lemma_mirror_segment(b, b2, bb, t, w, z, z2, a, c, k - 1);
        assert(pair_ok(b, b2, bb, t, w, z, z2, a, c, k - 1));
        assert(((a + k) - 1) as u64 == (a + (k - 1)) as u64);
        assert(((c + k) - 1) as u64 == (c + (k - 1)) as u64);
    }
}

proof fn lemma_square_parts(s: u64)
    requires
        s < 64,
    ensures
        s == (s / 8) * 8 + s % 8,
        s ^ 56u64 == (7 - s / 8) * 8 + s % 8,
{
    lemma_sq_flip(s);
    assert(s ^ 56u64 == ((s ^ 56u64) / 8) * 8 + (s ^ 56u64) % 8);
}

proof fn lemma_mirror_rank(
    b: &Board,
    b2: &Board,
    bb: u64,
    t: u8,
    w: bool,
    z: u64,
    z2: u64,
    r: int,
)
    requires
        0 <= r < 8,
        forall|s: u64|
            s < 64 && #[trigger] has_sq(bb, s) ==> negated3(
                piece_terms(b, t, w, z, s),
                piece_terms(b2, t, !w, z2, s ^ 56u64),
            ),
    ensures
        ({
            let p0 = posmod_sum(b, bb, t, w, z, 8 * r);
            let p1 = posmod_sum(b, bb, t, w, z, 8 * r + 8);
            let q0 = posmod_sum(b2, flip(bb), t, !w, z2, 8 * (7 - r));
            let q1 = posmod_sum(b2, flip(bb), t, !w, z2, 8 * (7 - r) + 8);
            &&& q1.0 - q0.0 == -(p1.0 - p0.0)
            &&& q1.1 - q0.1 == -(p1.1 - p0.1)
            &&& q1.2 - q0.2 == -(p1.2 - p0.2)
        }),
{
    assert forall|i: int| 0 <= i < 8 implies #[trigger] pair_ok(
        b,
        b2,
        bb,
        t,
        w,
        z,
        z2,
        8 * r,
        8 * (7 - r),
        i,
    ) by {
        let s = (8 * r + i) as u64;
        lemma_square_parts(s);
        assert(s / 8 == r && s % 8 == i);
        assert((8 * (7 - r) + i) as u64 == s ^ 56u64);
        lemma_flip_has_sq(bb, s);
    }
    lemma_mirror_segment(b, b2, bb, t, w, z, z2, 8 * r, 8 * (7 - r), 8);
}

/// Summed over a whole bitboard, the terms of the flipped pieces of the other colour are the
/// negated terms, when each piece's own terms are.
proof fn lemma_mirror_sum(b: &Board, b2: &Board, bb: u64, t: u8, w: bool, z: u64, z2: u64)
    requires
        forall|s: u64|
            s < 64 && #[trigger] has_sq(bb, s) ==> negated3(
                piece_terms(b, t, w, z, s),
                piece_terms(b2, t, !w, z2, s ^ 56u64),
            ),
    ensures
        negated3(posmod_sum(b, bb, t, w, z, 64), posmod_sum(b2, flip(bb), t, !w, z2, 64)),
{
    lemma_mirror_rank(b, b2, bb, t, w, z, z2, 0);
    lemma_mirror_rank(b, b2, bb, t, w, z, z2, 1);
    lemma_mirror_rank(b, b2, bb, t, w, z, z2, 2);
    lemma_mirror_rank(b, b2, bb, t, w, z, z2, 3);
    lemma_mirror_rank(b, b2, bb, t, w, z, z2, 4);
    lemma_mirror_rank(b, b2, bb, t, w, z, z2, 5);
    lemma_mirror_rank(b, b2, bb, t, w, z, z2, 6);
    lemma_mirror_rank(b, b2, bb, t, w, z, z2, 7);
    assert(posmod_sum(b, bb, t, w, z, 0) == (0int, 0int, 0int, 0int));
    assert(posmod_sum(b2, flip(bb), t, !w, z2, 0) == (0int, 0int, 0int, 0int));
}


proof fn lemma_mirror_kind(
    b: &Board,
    b2: &Board,
    t: u8,
    w: bool,
    e: usize,
    z: u64,
    e2: usize,
    z2: u64,
)
    requires
        colour_mirror(b, b2),
        pawns_inside(b),
        t <= 5,
    ensures
        negated3(kind_terms(b, t, w, e, z), kind_terms(b2, t, !w, e2, z2)),
{
    let side = if w {
        b.white_pieces
    } else {
        b.black_pieces
    };
    let kind = if t == 0 {
        b.pawns
    } else if t == 1 {
        b.knights
    } else if t == 2 {
        b.bishops
    } else if t == 3 {
        b.rooks
    } else if t == 4 {
        b.queens
    } else {
        b.kings
    };
    let bb = piece_bb(b, t, w);
    assert(bb == kind & side);
    lemma_flip_and(kind, side);
    assert(piece_bb(b2, t, !w) == flip(bb));
    assert forall|s: u64| s < 64 && #[trigger] has_sq(bb, s) implies negated3(
        piece_terms(b, t, w, z, s),
        piece_terms(b2, t, !w, z2, s ^ 56u64),
    ) by {
        if t == 0 {
            lemma_inside_and(b.pawns, side);
            lemma_pawn_ranks(bb, s);
        }
        lemma_mirror_piece(b, b2, t, w, z, z2, s);
    }
    lemma_mirror_sum(b, b2, bb, t, w, z, z2);
}

proof fn lemma_mirror_side(
    b: &Board,
    b2: &Board,
    w: bool,
    e: usize,
    z: u64,
    e2: usize,
    z2: u64,
    n: int,
)
    requires
        colour_mirror(b, b2),
        pawns_inside(b),
        n <= 6,
    ensures
        negated3(side_terms(b, w, e, z, n), side_terms(b2, !w, e2, z2, n)),
    decreases n,
{
    if n > 0 {
        lemma_mirror_side(b, b2, w, e, z, e2, z2, n - 1);
        lemma_mirror_kind(b, b2, (n - 1) as u8, w, e, z, e2, z2);
    }
}

proof fn lemma_mirror_bishop_pair(b: &Board, b2: &Board, w: bool, x: int)
    requires
        colour_mirror(b, b2),
    ensures
        bishop_pair(b2, w, x) == -bishop_pair(b, !w, x),
{
    lemma_flip_and(b.bishops, b.white_pieces);
    lemma_flip_and(b.bishops, b.black_pieces);
    lemma_popcount_flip(b.bishops & b.white_pieces);
    lemma_popcount_flip(b.bishops & b.black_pieces);
}

proof fn lemma_mirror_doubled(b: &Board, b2: &Board, w: bool, n: int)
    requires
        colour_mirror(b, b2),
        n <= 8,
    ensures
        doubled_pawns(b2, w, n) == doubled_pawns(b, !w, n),
    decreases n,
{
    if n > 0 {
        lemma_mirror_doubled(b, b2, w, n - 1);
        let side = if !w {
            b.white_pieces
        } else {
            b.black_pieces
        };
        let m = FILE_MASK[n - 1];
        lemma_file_mask_flip(n - 1);
        lemma_flip_and(m, side);
        lemma_flip_and(m & side, b.pawns);
        lemma_popcount_flip(m & side & b.pawns);
    }
}

proof fn lemma_mirror_early_queen(b: &Board, b2: &Board)
    requires
        colour_mirror(b, b2),
    ensures
        early_queen(b2) == -early_queen(b),
{
    lemma_flip_and(b.queens, b.white_pieces);
    lemma_flip_and(b.queens, b.black_pieces);
    lemma_flip_has_sq(b.queens & b.white_pieces, 59);
    lemma_flip_has_sq(b.queens & b.black_pieces, 59);
    assert(59u64 ^ 56u64 == 3u64) by (bit_vector);
}

/// Colour symmetry of the evaluation: in the colour-mirrored position (every piece changes
/// colour and moves to the mirrored square of the other half of the board, the other side to
/// move) every White-point-of-view term that `positional_terms` reports is negated: the
/// middlegame and endgame sums with their bishop-pair and doubled-pawn parts, the mobility,
/// and the early-queen penalty. The bishop-pair bonus of one side becomes the other side's.
pub proof fn law_colour_mirror_negates_terms(b: &Board, b2: &Board)
    requires
        colour_mirror(b, b2),
        pawns_inside(b),
    ensures
        mg_total(b2) == -mg_total(b),
        eg_total(b2) == -eg_total(b),
        mobility_total(b2) == -mobility_total(b),
        early_queen(b2) == -early_queen(b),
        forall|white: bool, bonus: int| #[trigger]
            bishop_pair(b2, white, bonus) == -bishop_pair(b, !white, bonus),
        forall|white: bool| #[trigger]
            doubled_pawns(b2, white, 8) == doubled_pawns(b, !white, 8),
{
    let wk = king_square(b, true);
    let bk = king_square(b, false);
    let wk2 = king_square(b2, true);
    let bk2 = king_square(b2, false);
    lemma_mirror_side(b, b2, true, bk as usize, zone_bb(bk), wk2 as usize, zone_bb(wk2), 6);
    lemma_mirror_side(b, b2, false, wk as usize, zone_bb(wk), bk2 as usize, zone_bb(bk2), 6);
    assert forall|white: bool, bonus: int| #[trigger]
        bishop_pair(b2, white, bonus) == -bishop_pair(b, !white, bonus) by {
        lemma_mirror_bishop_pair(b, b2, white, bonus);
    }
    lemma_mirror_doubled(b, b2, true, 8);
    lemma_mirror_doubled(b, b2, false, 8);
    lemma_mirror_early_queen(b, b2);
}

/// The bishop-pair part of the middlegame and endgame sums: `bonus` when only White has two
/// or more bishops, `-bonus` when only Black has, and nothing when both or neither have.
pub proof fn law_bishop_pair_sides(b: &Board, bonus: int)
    ensures
        ({
            let wb = popcount(b.bishops & b.white_pieces);
            let bl = popcount(b.bishops & b.black_pieces);
            let part = bishop_pair(b, true, bonus) + bishop_pair(b, false, bonus);
            &&& wb >= 2 && bl < 2 ==> part == bonus
            &&& wb < 2 && bl >= 2 ==> part == -bonus
            &&& (wb >= 2) == (bl >= 2) ==> part == 0
        }),
{
}

} // verus!
