use vstd::prelude::*;
use crate::engine::bitboard::{
    has_sq, lowest_sq, lemma_has_or, lemma_has_zero, lemma_has_single, lemma_clear_lowest,
    lemma_bits_ext,
};
use crate::engine::board::Board;
use crate::engine::eval::{FILE_MASK, RANK_MASK};
use crate::engine::eval_heuristics::MG_PAWN_SHIELD_BONUS;
use crate::engine::utils::geometry::{
    square_file, square_rank, near_file, on_file, on_rank, lemma_file_meets, lemma_rank_meets,
};
use crate::engine::utils::pawns::{pawn_attack, pawn_attacks, pawns_of};

verus! {

/// `s` is the king's square `sq` or one of the (up to eight) squares around it.
pub open spec fn king_zone(sq: u64, s: u64) -> bool {
    &&& s < 64
    &&& near_file(sq, s)
    &&& -1 <= (s / 8) as int - (sq / 8) as int <= 1
}

/// File offset of `s` from `sq`.
pub open spec fn file_offset(sq: u64, s: u64) -> int {
    (s % 8) as int - (sq % 8) as int
}

/// Rank offset of `s` from `sq`.
pub open spec fn rank_offset(sq: u64, s: u64) -> int {
    (s / 8) as int - (sq / 8) as int
}

proof fn lemma_square_of(f: int, r: int, idx: int)
    by (nonlinear_arith)
    requires
        0 <= f < 8,
        0 <= r < 8,
        idx == r * 8 + f,
    ensures
        idx % 8 == f,
        idx / 8 == r,
        0 <= idx < 64,
{
}

proof fn lemma_square_split(s: int)
    by (nonlinear_arith)
    requires
        0 <= s < 64,
    ensures
        s == (s / 8) * 8 + s % 8,
        0 <= s % 8 < 8,
        0 <= s / 8 < 8,
{
}

/// `m` holds exactly the squares of the zone of a king on `sq`.
pub open spec fn holds_king_zone(m: u64, sq: u64) -> bool {
    forall|s: u64| #[trigger] has_sq(m, s) == king_zone(sq, s)
}

/// The bitboard of the zone of a king on `sq`.
pub open spec fn zone_bb(sq: u64) -> u64 {
    choose|m: u64| #[trigger] holds_king_zone(m, sq)
}

/// Mask of a king's square plus up to 8 surrounding squares - used to detect enemy piece
/// attacks landing in/near the king's zone for king safety.
pub fn king_zone_mask(sq_i: u8) -> (m: u64)
    requires
        sq_i < 64,
    ensures
        forall|s: u64| #[trigger] has_sq(m, s) == king_zone(sq_i as u64, s),
        m == zone_bb(sq_i as u64),
{
    let file: i8 = square_file(sq_i) as i8;  // 1-8
    let rank: i8 = square_rank(sq_i) as i8;  // 1-8
    let ghost sq: u64 = sq_i as u64;

    let mut mask: u64 = 0;
    proof {
        assert forall|s: u64| #[trigger] has_sq(mask, s) == false by {
            lemma_has_zero(s);
        }
    }
    let mut df: i8 = -1;
    while df <= 1
        invariant
            sq_i < 64,
            sq == sq_i as u64,
            file == sq % 8 + 1,
            rank == sq / 8 + 1,
            -1 <= df <= 2,
            forall|s: u64| #[trigger]
                has_sq(mask, s) == (king_zone(sq, s) && file_offset(sq, s) < df),
        decreases 2 - df,
    {
        let mut dr: i8 = -1;
        while dr <= 1
            invariant
                sq_i < 64,
                sq == sq_i as u64,
                file == sq % 8 + 1,
                rank == sq / 8 + 1,
                -1 <= df <= 1,
                -1 <= dr <= 2,
                forall|s: u64| #[trigger]
                    has_sq(mask, s) == (king_zone(sq, s) && (file_offset(sq, s) < df || (
                    file_offset(sq, s) == df && rank_offset(sq, s) < dr))),
            decreases 2 - dr,
        {
            let f: i8 = file + df;
            let r: i8 = rank + dr;
            let old_mask: u64 = mask;
            if f >= 1 && f <= 8 && r >= 1 && r <= 8 {
                let idx: i8 = (r - 1) * 8 + (f - 1);
                proof {
                    lemma_square_of((f - 1) as int, (r - 1) as int, idx as int);
                }
                mask = mask | (1u64 << (idx as u64));
                proof {
                    assert forall|s: u64| #[trigger] has_sq(mask, s) == (king_zone(sq, s) && (
                    file_offset(sq, s) < df || (file_offset(sq, s) == df && rank_offset(sq, s) < dr
                        + 1))) by {
                        lemma_has_or(old_mask, 1u64 << (idx as u64), s);
                        lemma_has_single(idx as u64, s);
                        if s < 64 {
                            lemma_square_split(s as int);
                            lemma_square_split(sq as int);
                        }
                    }
                }
            } else {
                proof {
                    assert forall|s: u64| #[trigger] has_sq(mask, s) == (king_zone(sq, s) && (
                    file_offset(sq, s) < df || (file_offset(sq, s) == df && rank_offset(sq, s) < dr
                        + 1))) by {
                        if s < 64 {
                            lemma_square_split(s as int);
                            lemma_square_split(sq as int);
                        }
                    }
                }
            }
            dr = dr + 1;
        }
        df = df + 1;
    }
    proof {
        assert forall|s: u64| #[trigger] has_sq(mask, s) == king_zone(sq, s) by {}
        assert(holds_king_zone(mask, sq));
        let c: u64 = zone_bb(sq);
        assert(holds_king_zone(c, sq));
        lemma_bits_ext(mask, c);
    }
    mask
}

/// `KING_ZONE_MASKS[sq]` for every square.
pub fn generate_king_zone_masks() -> (masks: [u64; 64])
    ensures
        forall|sq: u64, s: u64| sq < 64 ==> #[trigger] has_sq(masks[sq as int], s) == king_zone(sq, s),
{
    let mut masks: [u64; 64] = [0u64; 64];
    let mut sq: u8 = 0;
    while sq < 64
        invariant
            sq <= 64,
            forall|q: u64, s: u64| q < sq ==> #[trigger] has_sq(masks[q as int], s) == king_zone(q, s),
        decreases 64 - sq,
    {
        let m: u64 = king_zone_mask(sq);
        let ghost old_masks = masks;
        masks[sq as usize] = m;
        proof {
            assert forall|q: u64, s: u64| q < sq + 1 implies #[trigger] has_sq(masks[q as int], s)
                == king_zone(q, s) by {
                if q < sq {
                    assert(masks[q as int] == old_masks[q as int]);
                }
            }
        }
        sq = sq + 1;
    }
    masks
}

/// `s` is a square from which a pawn of the colour opposing `color` would attack some square
/// of the zone of a king on `king_sq`: the union, over the zone, of the attack pattern of a
/// `color` pawn standing on the zone square (the mirror of the attacking pawn's own pattern).
pub open spec fn zone_pawn_attacker(color: bool, king_sq: u64, s: u64) -> bool {
    exists|z: u64| king_zone(king_sq, z) && #[trigger] pawn_attack(color, z, s)
}

/// The bitboard of the squares `zone_pawn_attacker` names.
pub open spec fn zone_attackers(color: bool, king_sq: u64) -> u64 {
    choose|m: u64| #[trigger] holds_zone_attackers(m, color, king_sq)
}

/// `m` holds exactly the squares `zone_pawn_attacker` names.
pub open spec fn holds_zone_attackers(m: u64, color: bool, king_sq: u64) -> bool {
    forall|s: u64| #[trigger] has_sq(m, s) == zone_pawn_attacker(color, king_sq, s)
}

/// Mask, per king color/square, of the squares an enemy pawn would need to stand on to attack
/// any square in that king's zone.
pub fn king_zone_pawn_attacker_mask(color: bool, king_sq_i: u8) -> (m: u64)
    requires
        king_sq_i < 64,
    ensures
        forall|s: u64| #[trigger] has_sq(m, s) == zone_pawn_attacker(color, king_sq_i as u64, s),
        m == zone_attackers(color, king_sq_i as u64),
{
    let zone0: u64 = king_zone_mask(king_sq_i);
    let mut zone: u64 = zone0;
    let mut mask: u64 = 0;
    proof {
        assert forall|s: u64| #[trigger] has_sq(mask, s) == false by {
            lemma_has_zero(s);
        }
    }
    while zone != 0
        invariant
            king_sq_i < 64,
            forall|s: u64| #[trigger] has_sq(zone0, s) == king_zone(king_sq_i as u64, s),
            forall|z: u64| #[trigger] has_sq(zone, z) ==> has_sq(zone0, z),
            forall|s: u64| #[trigger]
                has_sq(mask, s) == (exists|z: u64|
                    has_sq(zone0, z) && !has_sq(zone, z) && #[trigger] pawn_attack(color, z, s)),
        decreases zone,
    {
        proof {
            lemma_clear_lowest(zone);
        }
        let sq: u64 = zone.trailing_zeros() as u64;
        let old_zone: u64 = zone;
        let old_mask: u64 = mask;
        zone = zone & (zone - 1);
        let att: u64 = pawn_attacks(color, sq as u8);
        mask = mask | att;
        proof {
            assert(sq == lowest_sq(old_zone));
            assert(zone < old_zone) by {
                assert(old_zone & ((old_zone - 1) as u64) <= (old_zone - 1) as u64) by (bit_vector);
            }
            assert forall|s: u64| #[trigger] has_sq(mask, s) == (exists|z: u64|
                has_sq(zone0, z) && !has_sq(zone, z) && #[trigger] pawn_attack(color, z, s)) by {
                lemma_has_or(old_mask, att, s);
                if has_sq(mask, s) {
                    if has_sq(att, s) {
                        assert(has_sq(zone0, sq) && !has_sq(zone, sq) && pawn_attack(color, sq, s));
                    } else {
                        let z: u64 = choose|z: u64|
                            has_sq(zone0, z) && !has_sq(old_zone, z) && #[trigger] pawn_attack(
                                color,
                                z,
                                s,
                            );
                        assert(has_sq(zone0, z) && !has_sq(zone, z) && pawn_attack(color, z, s));
                    }
                } else {
                    assert forall|z: u64| has_sq(zone0, z) && !has_sq(zone, z) implies !#[trigger]
                        pawn_attack(color, z, s) by {
                        if z == sq {
                            assert(!has_sq(att, s));
                        } else {
                            assert(!has_sq(old_zone, z));
                        }
                    }
                }
            }
        }
    }
    proof {
        assert forall|s: u64| #[trigger] has_sq(mask, s) == zone_pawn_attacker(
            color,
            king_sq_i as u64,
            s,
        ) by {
            if has_sq(mask, s) {
                let z: u64 = choose|z: u64|
                    has_sq(zone0, z) && !has_sq(zone, z) && #[trigger] pawn_attack(color, z, s);
                assert(king_zone(king_sq_i as u64, z));
            }
            if zone_pawn_attacker(color, king_sq_i as u64, s) {
                let z: u64 = choose|z: u64|
                    king_zone(king_sq_i as u64, z) && #[trigger] pawn_attack(color, z, s);
                assert(has_sq(zone0, z));
                lemma_has_zero(z);
                assert(!has_sq(zone, z));
            }
        }
        assert(holds_zone_attackers(mask, color, king_sq_i as u64));
        let c: u64 = zone_attackers(color, king_sq_i as u64);
        assert(holds_zone_attackers(c, color, king_sq_i as u64));
        lemma_bits_ext(mask, c);
    }
    mask
}

/// `KING_ZONE_PAWN_ATTACKERS[c][sq]` for Black (`c = 0`) and White (`c = 1`).
pub fn generate_king_zone_pawn_attacker_masks() -> (masks: [[u64; 64]; 2])
    ensures
        forall|sq: u64, s: u64|
            sq < 64 ==> #[trigger] has_sq(masks[0][sq as int], s) == zone_pawn_attacker(false, sq, s),
        forall|sq: u64, s: u64|
            sq < 64 ==> #[trigger] has_sq(masks[1][sq as int], s) == zone_pawn_attacker(true, sq, s),
{
    let mut black: [u64; 64] = [0u64; 64];
    let mut white: [u64; 64] = [0u64; 64];
    let mut sq: u8 = 0;
    while sq < 64
        invariant
            sq <= 64,
            forall|q: u64, s: u64|
                q < sq ==> #[trigger] has_sq(black[q as int], s) == zone_pawn_attacker(false, q, s),
            forall|q: u64, s: u64|
                q < sq ==> #[trigger] has_sq(white[q as int], s) == zone_pawn_attacker(true, q, s),
        decreases 64 - sq,
    {
        let b: u64 = king_zone_pawn_attacker_mask(false, sq);
        let w: u64 = king_zone_pawn_attacker_mask(true, sq);
        let ghost old_black = black;
        let ghost old_white = white;
        black[sq as usize] = b;
        white[sq as usize] = w;
        proof {
            assert forall|q: u64, s: u64| q < sq + 1 implies #[trigger] has_sq(black[q as int], s)
                == zone_pawn_attacker(false, q, s) by {
                if q < sq {
                    assert(black[q as int] == old_black[q as int]);
                }
            }
            assert forall|q: u64, s: u64| q < sq + 1 implies #[trigger] has_sq(white[q as int], s)
                == zone_pawn_attacker(true, q, s) by {
                if q < sq {
                    assert(white[q as int] == old_white[q as int]);
                }
            }
        }
        sq = sq + 1;
    }
    let masks: [[u64; 64]; 2] = [black, white];
    assert(masks[0] == black && masks[1] == white);
    masks
}


/// A pawn of `file_pawns` stands on rank `r` (1..=8; false off the board).
pub open spec fn pawn_on_rank(file_pawns: u64, r: int) -> bool {
    1 <= r <= 8 && on_rank(file_pawns, (r - 1) as u64)
}

/// The rank `d` ranks ahead of `rank` for a side of colour `color` (White moves up).
pub open spec fn rank_ahead(rank: int, color: bool, d: int) -> int {
    if color {
        rank + d
    } else {
        rank - d
    }
}

/// Shield tier of one file in front of a king on rank `king_rank`: 0 when a pawn of
/// `file_pawns` stands one rank ahead of the king (towards the enemy for `color`), 1 when the
/// nearest one is two ranks ahead, 2 otherwise.
pub open spec fn shield_tier(file_pawns: u64, king_rank: int, color: bool) -> usize {
    if pawn_on_rank(file_pawns, rank_ahead(king_rank, color, 1)) {
        0
    } else if pawn_on_rank(file_pawns, rank_ahead(king_rank, color, 2)) {
        1
    } else {
        2
    }
}

/// dist 1 = pawn one rank ahead of the king (tier 0, ideal). dist 2 = pawn two ranks ahead
/// (tier 1, pushed once). anything further, or no pawn on the file at all, is tier 2 (weak).
pub fn shield_file_tier(file_pawns: u64, king_rank: i8, color: bool) -> (tier: usize)
    requires
        color ==> king_rank <= 125,
        !color ==> king_rank >= -126,
    ensures
        tier == shield_tier(file_pawns, king_rank as int, color),
{
    let mut dist: i8 = 1;
    while dist <= 2
        invariant
            1 <= dist <= 3,
            color ==> king_rank <= 125,
            !color ==> king_rank >= -126,
            forall|d: int|
                1 <= d < dist ==> !#[trigger] pawn_on_rank(
                    file_pawns,
                    rank_ahead(king_rank as int, color, d),
                ),
        decreases 3 - dist,
    {
        let target_rank: i8 = if color {
            king_rank + dist
        } else {
            king_rank - dist
        };
        if target_rank < 1 || target_rank > 8 {
            dist = dist + 1;
            continue;
        }
        proof {
            lemma_rank_meets(file_pawns, (target_rank - 1) as u64);
        }
        if RANK_MASK[(target_rank - 1) as usize] & file_pawns != 0 {
            return (dist - 1) as usize;
        }
        dist = dist + 1;
    }
    2
}

/// Shield bonus of the file `f` (1..=8; nothing off the board) for a king of colour `color` on
/// rank `king_rank`.
pub open spec fn file_shield(board: &Board, color: bool, f: int, king_rank: int) -> int {
    if 1 <= f <= 8 {
        MG_PAWN_SHIELD_BONUS[shield_tier(
            FILE_MASK[f - 1] & pawns_of(board, color),
            king_rank,
            color,
        ) as int] as int
    } else {
        0
    }
}

/// The pawn-shield score of a king of colour `color` on `king_sq`: the shield bonus of its
/// own file and of both adjacent files.
pub open spec fn shield_score(board: &Board, color: bool, king_sq: u64) -> int {
    let kf: int = (king_sq % 8 + 1) as int;
    let kr: int = (king_sq / 8 + 1) as int;
    file_shield(board, color, kf - 1, kr) + file_shield(board, color, kf, kr) + file_shield(
        board,
        color,
        kf + 1,
        kr,
    )
}

/// Sums MG_PAWN_SHIELD_BONUS over the king's file and both adjacent files, tiered by how far
/// advanced the closest friendly pawn on each file is (or 0 if there is none within two ranks).
pub fn pawn_shield_score(king_sq_i: u8, color: bool, board: &Board) -> (score: i16)
    requires
        king_sq_i < 64,
    ensures
        score == shield_score(board, color, king_sq_i as u64),
        0 <= score <= 36,
{
    let king_file: i8 = square_file(king_sq_i) as i8;  // 1-8
    let king_rank: i8 = square_rank(king_sq_i) as i8;  // 1-8

    let friendly_pawns: u64 = if color {
        board.white_pieces & board.pawns
    } else {
        board.black_pieces & board.pawns
    };
    proof {
        assert(friendly_pawns == pawns_of(board, color));
    }

    let mut score: i16 = 0;
    let mut file: i8 = king_file - 1;
    while file <= king_file + 1
        invariant
            king_sq_i < 64,
            king_file == king_sq_i % 8 + 1,
            king_rank == king_sq_i / 8 + 1,
            friendly_pawns == pawns_of(board, color),
            king_file - 1 <= file <= king_file + 2,
            0 <= score <= 12 * (file - (king_file - 1)),
            score == (if file > king_file - 1 {
                file_shield(board, color, king_file - 1, king_rank as int)
            } else {
                0
            }) + (if file > king_file {
                file_shield(board, color, king_file as int, king_rank as int)
            } else {
                0
            }) + (if file > king_file + 1 {
                file_shield(board, color, king_file + 1, king_rank as int)
            } else {
                0
            }),
        decreases king_file + 2 - file,
    {
        if file >= 1 && file <= 8 {
            let file_pawns: u64 = FILE_MASK[(file - 1) as usize] & friendly_pawns;
            let tier: usize = shield_file_tier(file_pawns, king_rank, color);
            score = score + MG_PAWN_SHIELD_BONUS[tier];
        }
        file = file + 1;
    }
    score
}

/// How well a file near a king is covered by pawns.
#[derive(PartialEq, Eq, Structural, Clone, Copy, Debug)]
pub enum FileCover {
    /// Off the board, or a friendly pawn stands on it.
    Covered,
    /// No pawn at all on the file.
    Open,
    /// Enemy pawns but no friendly pawn on the file.
    SemiOpen,
}

/// The cover of file `f` (1..=8) near a king of colour `color`.
pub open spec fn file_cover(board: &Board, color: bool, f: int) -> FileCover {
    if !(1 <= f <= 8) {
        FileCover::Covered
    } else if !on_file(board.pawns, (f - 1) as u64) {
        FileCover::Open
    } else if !on_file(pawns_of(board, color), (f - 1) as u64) {
        FileCover::SemiOpen
    } else {
        FileCover::Covered
    }
}

/// The cover of the king's file and both adjacent files, left to right - what the king-danger
/// multiplier is built from: open/semi-open files amplify existing pressure rather than adding
/// danger on their own.
pub fn king_file_weakness(king_sq_i: u8, color: bool, board: &Board) -> (covers: [FileCover; 3])
    requires
        king_sq_i < 64,
    ensures
        forall|k: int|
            0 <= k < 3 ==> #[trigger] covers[k] == file_cover(
                board,
                color,
                (king_sq_i % 8) as int + k,
            ),
{
    let king_file: i8 = square_file(king_sq_i) as i8;  // 1-8

    let friendly_pawns: u64 = if color {
        board.white_pieces & board.pawns
    } else {
        board.black_pieces & board.pawns
    };
    proof {
        assert(friendly_pawns == pawns_of(board, color));
    }

    let mut covers: [FileCover; 3] = [FileCover::Covered; 3];
    let mut file: i8 = king_file - 1;
    while file <= king_file + 1
        invariant
            king_sq_i < 64,
            king_file == king_sq_i % 8 + 1,
            friendly_pawns == pawns_of(board, color),
            king_file - 1 <= file <= king_file + 2,
            forall|k: int|
                0 <= k < 3 && (king_file - 1) + k < file ==> #[trigger] covers[k] == file_cover(
                    board,
                    color,
                    (king_sq_i % 8) as int + k,
                ),
            forall|k: int|
                0 <= k < 3 && (king_file - 1) + k >= file ==> #[trigger] covers[k]
                    == FileCover::Covered,
        decreases king_file + 2 - file,
    {
        let slot: usize = (file - (king_file - 1)) as usize;
        if file >= 1 && file <= 8 {
            let file_mask: u64 = FILE_MASK[(file - 1) as usize];
            proof {
                lemma_file_meets(board.pawns, (file - 1) as u64);
                lemma_file_meets(friendly_pawns, (file - 1) as u64);
            }
            if file_mask & board.pawns == 0 {
                covers[slot] = FileCover::Open;
            } else if file_mask & friendly_pawns == 0 {
                covers[slot] = FileCover::SemiOpen;
            }
        }
        file = file + 1;
    }
    covers
}

} // verus!
