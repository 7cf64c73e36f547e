use vstd::prelude::*;
use crate::engine::bitboard::{
    has_sq, lemma_has_or, lemma_has_and, lemma_has_zero, lemma_has_not, lemma_empty_iff, lemma_and_empty,
};
use crate::engine::board::Board;
use crate::engine::eval::{FILE_MASK, RANK_MASK};
use crate::engine::utils::geometry::{
    square_file, square_rank, near_file, lemma_rank_mask, lemma_file_mask, lemma_two_files,
    lemma_three_files,
};

verus! {

/// The squares that must hold no enemy pawn for a pawn of colour `color` (true = White) on
/// `sq` to count as passed: the pawn's file and the files next to it, on every rank ahead of
/// a White pawn, or on the ranks behind a Black pawn down to (not including) the first rank.
pub open spec fn passed_span(color: bool, sq: u64, s: u64) -> bool {
    &&& s < 64
    &&& near_file(sq, s)
    &&& if color {
        s / 8 > sq / 8
    } else {
        1 <= s / 8 && s / 8 < sq / 8
    }
}

/// The file part of a pawn mask: the file of `sq` and its neighbours.
proof fn lemma_near_files(file: u8, m: u64, sq: u64)
    requires
        sq < 64,
        file == sq % 8 + 1,
        file == 1 ==> m == FILE_MASK[0] | FILE_MASK[1],
        file == 2 ==> m == FILE_MASK[0] | FILE_MASK[1] | FILE_MASK[2],
        file == 3 ==> m == FILE_MASK[1] | FILE_MASK[2] | FILE_MASK[3],
        file == 4 ==> m == FILE_MASK[2] | FILE_MASK[3] | FILE_MASK[4],
        file == 5 ==> m == FILE_MASK[3] | FILE_MASK[4] | FILE_MASK[5],
        file == 6 ==> m == FILE_MASK[4] | FILE_MASK[5] | FILE_MASK[6],
        file == 7 ==> m == FILE_MASK[5] | FILE_MASK[6] | FILE_MASK[7],
        file == 8 ==> m == FILE_MASK[6] | FILE_MASK[7],
    ensures
        forall|s: u64| #[trigger] has_sq(m, s) == (s < 64 && near_file(sq, s)),
{
    assert forall|s: u64| #[trigger] has_sq(m, s) == (s < 64 && near_file(sq, s)) by {
        if file == 1 {
            lemma_two_files(0, 1, s);
        } else if file == 2 {
            lemma_three_files(0, 1, 2, s);
        } else if file == 3 {
            lemma_three_files(1, 2, 3, s);
        } else if file == 4 {
            lemma_three_files(2, 3, 4, s);
        } else if file == 5 {
            lemma_three_files(3, 4, 5, s);
        } else if file == 6 {
            lemma_three_files(4, 5, 6, s);
        } else if file == 7 {
            lemma_three_files(5, 6, 7, s);
        } else {
            lemma_two_files(6, 7, s);
        }
    }
}

/// Returns a mask for the squares to check for opposing pawns to see if your pawn is passed.
pub fn passed_pawn_mask(color: bool, sq_i: u8) -> (m: u64)
    requires
        sq_i < 64,
    ensures
        forall|s: u64| #[trigger] has_sq(m, s) == passed_span(color, sq_i as u64, s),
{
    let file: u8 = square_file(sq_i);
    let rank: u8 = square_rank(sq_i);

    let file_mask: u64;
    match file {
        1 => file_mask = FILE_MASK[0] | FILE_MASK[1],
        2 => file_mask = FILE_MASK[0] | FILE_MASK[1] | FILE_MASK[2],
        3 => file_mask = FILE_MASK[1] | FILE_MASK[2] | FILE_MASK[3],
        4 => file_mask = FILE_MASK[2] | FILE_MASK[3] | FILE_MASK[4],
        5 => file_mask = FILE_MASK[3] | FILE_MASK[4] | FILE_MASK[5],
        6 => file_mask = FILE_MASK[4] | FILE_MASK[5] | FILE_MASK[6],
        7 => file_mask = FILE_MASK[5] | FILE_MASK[6] | FILE_MASK[7],
        8 => file_mask = FILE_MASK[6] | FILE_MASK[7],
        _ => file_mask = 0,
    }
    proof {
        lemma_near_files(file, file_mask, sq_i as u64);
    }

    let mut rank_mask: u64 = 0;
    if color {
        let mut r: u8 = rank;
        proof {
            assert forall|s: u64| #[trigger]
                has_sq(rank_mask, s) == (s < 64 && rank <= s / 8 && s / 8 < r) by {
                lemma_has_zero(s);
            }
        }
        while r < 8
            invariant
                rank == sq_i / 8 + 1,
                rank <= r <= 8,
                forall|s: u64| #[trigger]
                    has_sq(rank_mask, s) == (s < 64 && rank <= s / 8 && s / 8 < r),
            decreases 8 - r,
        {
            let old_mask: u64 = rank_mask;
            rank_mask = rank_mask | RANK_MASK[r as usize];
            proof {
                assert forall|s: u64| #[trigger]
                    has_sq(rank_mask, s) == (s < 64 && rank <= s / 8 && s / 8 < r + 1) by {
                    lemma_has_or(old_mask, RANK_MASK[r as int], s);
                    lemma_rank_mask(r as u64, s);
                }
            }
            r = r + 1;
        }
    } else {
        let max_rank: u8 = rank - 1;
        let mut r: u8 = 1;
        proof {
            assert forall|s: u64| #[trigger]
                has_sq(rank_mask, s) == (s < 64 && 1 <= s / 8 && s / 8 < r) by {
                lemma_has_zero(s);
            }
        }
        while r < max_rank
            invariant
                sq_i < 64,
                max_rank == sq_i / 8,
                1 <= r,
                r <= max_rank || r == 1,
                forall|s: u64| #[trigger]
                    has_sq(rank_mask, s) == (s < 64 && 1 <= s / 8 && s / 8 < r),
            decreases max_rank - r,
        {
            let old_mask: u64 = rank_mask;
            rank_mask = rank_mask | RANK_MASK[r as usize];
            proof {
                assert forall|s: u64| #[trigger]
                    has_sq(rank_mask, s) == (s < 64 && 1 <= s / 8 && s / 8 < r + 1) by {
                    lemma_has_or(old_mask, RANK_MASK[r as int], s);
                    lemma_rank_mask(r as u64, s);
                }
            }
            r = r + 1;
        }
    }

    let m: u64 = file_mask & rank_mask;
    proof {
        assert forall|s: u64| #[trigger] has_sq(m, s) == passed_span(color, sq_i as u64, s) by {
            lemma_has_and(file_mask, rank_mask, s);
        }
    }
    m
}

/// `PASSED_PAWN_MASKS[c][sq]`: the passed-pawn mask of every square, Black (`c = 0`) and
/// White (`c = 1`).
pub fn generate_passed_pawns_masks() -> (masks: [[u64; 64]; 2])
    ensures
        forall|sq: u64, s: u64|
            sq < 64 ==> (#[trigger] has_sq(masks[0][sq as int], s) == passed_span(false, sq, s)
                && has_sq(masks[1][sq as int], s) == passed_span(true, sq, s)),
{
    let mut black: [u64; 64] = [0u64; 64];
    let mut white: [u64; 64] = [0u64; 64];
    let mut sq: u8 = 0;
    while sq < 64
        invariant
            sq <= 64,
            forall|q: u64, s: u64|
                q < sq ==> #[trigger] has_sq(black[q as int], s) == passed_span(false, q, s),
            forall|q: u64, s: u64|
                q < sq ==> #[trigger] has_sq(white[q as int], s) == passed_span(true, q, s),
        decreases 64 - sq,
    {
        let b: u64 = passed_pawn_mask(false, sq);
        let w: u64 = passed_pawn_mask(true, sq);
        let ghost old_black = black;
        let ghost old_white = white;
        black[sq as usize] = b;
        white[sq as usize] = w;
        proof {
            assert forall|q: u64, s: u64| q < sq + 1 implies #[trigger] has_sq(black[q as int], s)
                == passed_span(false, q, s) by {
                if q < sq {
                    assert(black[q as int] == old_black[q as int]);
                }
            }
            assert forall|q: u64, s: u64| q < sq + 1 implies #[trigger] has_sq(white[q as int], s)
                == passed_span(true, q, s) by {
                if q < sq {
                    assert(white[q as int] == old_white[q as int]);
                }
            }
        }
        sq = sq + 1;
    }
    let masks: [[u64; 64]; 2] = [black, white];
    assert(masks[0] == black && masks[1] == white);
    masks
}

/// The pawns of the given colour.
pub open spec fn pawns_of(b: &Board, white: bool) -> u64 {
    if white {
        b.white_pieces & b.pawns
    } else {
        b.black_pieces & b.pawns
    }
}

/// The pawns of the side opposing `color`.
pub open spec fn enemy_pawns(b: &Board, color: bool) -> u64 {
    pawns_of(b, !color)
}

/// A pawn of colour `color` on `sq_i` is passed: no enemy pawn stands in its passed span.
pub fn pawn_passed(sq_i: u8, color: bool, board: &Board) -> (passed: bool)
    requires
        sq_i < 64,
    ensures
        passed == (forall|s: u64|
            passed_span(color, sq_i as u64, s) ==> !#[trigger] has_sq(enemy_pawns(board, color), s)),
{
    let passer_defender_mask: u64 = passed_pawn_mask(color, sq_i);
    let opponent_pawns: u64 = if color {
        board.black_pieces & board.pawns
    } else {
        board.white_pieces & board.pawns
    };
    let common: u64 = passer_defender_mask & opponent_pawns;
    proof {
        lemma_empty_iff(common);
        assert(opponent_pawns == enemy_pawns(board, color));
        assert forall|s: u64| #[trigger] has_sq(common, s) == (passed_span(color, sq_i as u64, s)
            && has_sq(opponent_pawns, s)) by {
            lemma_has_and(passer_defender_mask, opponent_pawns, s);
        }
        assert(common == 0 <==> forall|s: u64|
            passed_span(color, sq_i as u64, s) ==> !#[trigger] has_sq(enemy_pawns(board, color), s)) by {
            if common != 0 {
                let w: u64 = choose|s: u64| has_sq(common, s);
                assert(has_sq(common, w));
            } else {
                assert forall|s: u64| passed_span(color, sq_i as u64, s) implies !#[trigger] has_sq(
                    enemy_pawns(board, color),
                    s,
                ) by {
                    assert(!has_sq(common, s));
                }
            }
        }
    }
    if common == 0 {
        true
    } else {
        false
    }
}


/// `s` lies on a file next to file `f` (0 = a-file).
pub open spec fn adjacent_file(f: u64, s: u64) -> bool {
    s < 64 && (s % 8 + 1 == f || s % 8 == f + 1)
}

/// `ADJACENT_FILE_MASKS[f]`: the two files next to file `f` (only one on the edge files),
/// not the file itself.
pub fn generate_adjacent_file_masks() -> (masks: [u64; 8])
    ensures
        forall|f: u64, s: u64| f < 8 ==> #[trigger] has_sq(masks[f as int], s) == adjacent_file(f, s),
{
    let mut masks: [u64; 8] = [0u64; 8];
    let mut file: usize = 0;
    while file < 8
        invariant
            file <= 8,
            forall|f: u64, s: u64|
                f < file ==> #[trigger] has_sq(masks[f as int], s) == adjacent_file(f, s),
        decreases 8 - file,
    {
        let mut mask: u64 = 0u64;
        proof {
            assert forall|s: u64| #[trigger] has_sq(mask, s) == false by {
                lemma_has_zero(s);
            }
        }
        if file > 0 {
            let m0: u64 = mask;
            mask = mask | FILE_MASK[file - 1];
            proof {
                assert forall|s: u64| #[trigger] has_sq(mask, s) == (s < 64 && s % 8 + 1 == file) by {
                    lemma_has_or(m0, FILE_MASK[file - 1], s);
                    lemma_file_mask((file - 1) as u64, s);
                }
            }
        }
        let m1: u64 = mask;
        if file < 7 {
            mask = mask | FILE_MASK[file + 1];
            proof {
                assert forall|s: u64| #[trigger] has_sq(mask, s) == (has_sq(m1, s) || (s < 64 && s
                    % 8 == file + 1)) by {
                    lemma_has_or(m1, FILE_MASK[file + 1], s);
                    lemma_file_mask((file + 1) as u64, s);
                }
            }
        }
        assert forall|s: u64| #[trigger] has_sq(mask, s) == adjacent_file(file as u64, s) by {
            if file > 0 {
            } else {
                assert(!has_sq(m1, s));
            }
        }
        let ghost old_masks = masks;
        masks[file] = mask;
        proof {
            assert forall|f: u64, s: u64| f < file + 1 implies #[trigger] has_sq(masks[f as int], s)
                == adjacent_file(f, s) by {
                if f < file {
                    assert(masks[f as int] == old_masks[f as int]);
                }
            }
        }
        file = file + 1;
    }
    masks
}

/// A pawn of colour `color` on `sq_i` is isolated: no friendly pawn on an adjacent file.
pub fn pawn_isolated(sq_i: u8, color: bool, board: &Board) -> (isolated: bool)
    requires
        sq_i < 64,
    ensures
        isolated == (forall|s: u64|
            adjacent_file(sq_i as u64 % 8, s) ==> !#[trigger] has_sq(pawns_of(board, color), s)),
{
    let file_i: usize = (square_file(sq_i) - 1) as usize;
    let friendly_pawns: u64 = if color {
        board.white_pieces & board.pawns
    } else {
        board.black_pieces & board.pawns
    };
    let adjacent_file_masks: [u64; 8] = generate_adjacent_file_masks();
    let isolated: bool = adjacent_file_masks[file_i] & friendly_pawns == 0;
    proof {
        let m: u64 = adjacent_file_masks[file_i as int];
        lemma_and_empty(m, friendly_pawns);
        assert(friendly_pawns == pawns_of(board, color));
        if !isolated {
            let w: u64 = choose|s: u64| has_sq(m, s) && has_sq(friendly_pawns, s);
            assert(has_sq(m, w));
        } else {
            assert forall|s: u64| adjacent_file(sq_i as u64 % 8, s) implies !#[trigger] has_sq(
                pawns_of(board, color),
                s,
            ) by {
                assert(has_sq(m, s));
            }
        }
    }
    isolated
}

/// The squares where a friendly pawn could support a pawn of colour `color` on `sq`: the
/// adjacent files, on the pawn's rank or behind it.
pub open spec fn backward_span(color: bool, sq: u64, s: u64) -> bool {
    &&& adjacent_file(sq % 8, s)
    &&& if color {
        s / 8 <= sq / 8
    } else {
        s / 8 >= sq / 8
    }
}

/// Mask of the squares (adjacent files, this pawn's rank or further back) where a friendly
/// pawn would need to stand to be able to defend this pawn's stop square by pushing up beside
/// it - used for backward pawn detection.
pub fn backward_pawn_mask(color: bool, sq_i: u8) -> (m: u64)
    requires
        sq_i < 64,
    ensures
        forall|s: u64| #[trigger] has_sq(m, s) == backward_span(color, sq_i as u64, s),
{
    let file_i: usize = (square_file(sq_i) - 1) as usize;
    let rank: u8 = square_rank(sq_i);

    let mut rank_mask: u64 = 0;
    proof {
        assert forall|s: u64| #[trigger] has_sq(rank_mask, s) == false by {
            lemma_has_zero(s);
        }
    }
    if color {
        // white: a defender must be on this rank or below.
        let mut r: u8 = 1;
        while r <= rank
            invariant
                rank == sq_i / 8 + 1,
                sq_i < 64,
                1 <= r <= rank + 1,
                forall|s: u64| #[trigger] has_sq(rank_mask, s) == (s < 64 && s / 8 + 1 < r),
            decreases rank + 1 - r,
        {
            let old_mask: u64 = rank_mask;
            rank_mask = rank_mask | RANK_MASK[(r - 1) as usize];
            proof {
                assert forall|s: u64| #[trigger] has_sq(rank_mask, s) == (s < 64 && s / 8 + 1 < r
                    + 1) by {
                    lemma_has_or(old_mask, RANK_MASK[r - 1], s);
                    lemma_rank_mask((r - 1) as u64, s);
                }
            }
            r = r + 1;
        }
    } else {
        // black: a defender must be on this rank or above.
        let mut r: u8 = rank;
        while r <= 8
            invariant
                rank == sq_i / 8 + 1,
                sq_i < 64,
                rank <= r <= 9,
                forall|s: u64| #[trigger] has_sq(rank_mask, s) == (s < 64 && rank <= s / 8 + 1 && s
                    / 8 + 1 < r),
            decreases 9 - r,
        {
            let old_mask: u64 = rank_mask;
            rank_mask = rank_mask | RANK_MASK[(r - 1) as usize];
            proof {
                assert forall|s: u64| #[trigger] has_sq(rank_mask, s) == (s < 64 && rank <= s / 8 + 1
                    && s / 8 + 1 < r + 1) by {
                    lemma_has_or(old_mask, RANK_MASK[r - 1], s);
                    lemma_rank_mask((r - 1) as u64, s);
                }
            }
            r = r + 1;
        }
    }

    let adjacent_file_masks: [u64; 8] = generate_adjacent_file_masks();
    let m: u64 = adjacent_file_masks[file_i] & rank_mask;
    proof {
        assert forall|s: u64| #[trigger] has_sq(m, s) == backward_span(color, sq_i as u64, s) by {
            lemma_has_and(adjacent_file_masks[file_i as int], rank_mask, s);
        }
    }
    m
}

/// `BACKWARD_PAWN_MASKS[c][sq]` for Black (`c = 0`) and White (`c = 1`).
pub fn generate_backward_pawn_masks() -> (masks: [[u64; 64]; 2])
    ensures
        forall|sq: u64, s: u64|
            sq < 64 ==> #[trigger] has_sq(masks[0][sq as int], s) == backward_span(false, sq, s),
        forall|sq: u64, s: u64|
            sq < 64 ==> #[trigger] has_sq(masks[1][sq as int], s) == backward_span(true, sq, s),
{
    let mut black: [u64; 64] = [0u64; 64];
    let mut white: [u64; 64] = [0u64; 64];
    let mut sq: u8 = 0;
    while sq < 64
        invariant
            sq <= 64,
            forall|q: u64, s: u64|
                q < sq ==> #[trigger] has_sq(black[q as int], s) == backward_span(false, q, s),
            forall|q: u64, s: u64|
                q < sq ==> #[trigger] has_sq(white[q as int], s) == backward_span(true, q, s),
        decreases 64 - sq,
    {
        let b: u64 = backward_pawn_mask(false, sq);
        let w: u64 = backward_pawn_mask(true, sq);
        let ghost old_black = black;
        let ghost old_white = white;
        black[sq as usize] = b;
        white[sq as usize] = w;
        proof {
            assert forall|q: u64, s: u64| q < sq + 1 implies #[trigger] has_sq(black[q as int], s)
                == backward_span(false, q, s) by {
                if q < sq {
                    assert(black[q as int] == old_black[q as int]);
                }
            }
            assert forall|q: u64, s: u64| q < sq + 1 implies #[trigger] has_sq(white[q as int], s)
                == backward_span(true, q, s) by {
                if q < sq {
                    assert(white[q as int] == old_white[q as int]);
                }
            }
        }
        sq = sq + 1;
    }
    let masks: [[u64; 64]; 2] = [black, white];
    assert(masks[0] == black && masks[1] == white);
    masks
}

/// The squares a pawn of colour `white` on `sq` attacks: diagonally one rank forward.
pub open spec fn pawn_attack(white: bool, sq: u64, s: u64) -> bool {
    &&& s < 64
    &&& if white {
        (s == sq + 7 && sq % 8 != 0) || (s == sq + 9 && sq % 8 != 7)
    } else {
        (s + 9 == sq && sq % 8 != 0) || (s + 7 == sq && sq % 8 != 7)
    }
}

proof fn lemma_white_pawn_attacks(sq: u64, s: u64)
    by (bit_vector)
    requires
        sq < 64,
    ensures
        has_sq(
            (((1u64 << sq) << 7u64) & !0x8080808080808080u64) | (((1u64 << sq) << 9u64)
                & !0x0101010101010101u64),
            s,
        ) == (s < 64 && ((s == sq + 7 && sq % 8 != 0) || (s == sq + 9 && sq % 8 != 7))),
{
}

proof fn lemma_black_pawn_attacks(sq: u64, s: u64)
    by (bit_vector)
    requires
        sq < 64,
    ensures
        has_sq(
            (((1u64 << sq) >> 9u64) & !0x8080808080808080u64) | (((1u64 << sq) >> 7u64)
                & !0x0101010101010101u64),
            s,
        ) == (s < 64 && ((s + 9 == sq && sq % 8 != 0) || (s + 7 == sq && sq % 8 != 7))),
{
}

/// `WHITE_PAWN_ATTACKS[sq]` (`white`) or `BLACK_PAWN_ATTACKS[sq]`: the squares that a pawn of
/// that colour on `sq` attacks.
pub fn pawn_attacks(white: bool, sq: u8) -> (m: u64)
    requires
        sq < 64,
    ensures
        forall|s: u64| #[trigger] has_sq(m, s) == pawn_attack(white, sq as u64, s),
{
    let b: u64 = 1u64 << sq;
    if white {
        let m: u64 = ((b << 7u64) & !FILE_MASK[7]) | ((b << 9u64) & !FILE_MASK[0]);
        proof {
            assert forall|s: u64| #[trigger] has_sq(m, s) == pawn_attack(white, sq as u64, s) by {
                lemma_white_pawn_attacks(sq as u64, s);
            }
        }
        m
    } else {
        let m: u64 = ((b >> 9u64) & !FILE_MASK[7]) | ((b >> 7u64) & !FILE_MASK[0]);
        proof {
            assert forall|s: u64| #[trigger] has_sq(m, s) == pawn_attack(white, sq as u64, s) by {
                lemma_black_pawn_attacks(sq as u64, s);
            }
        }
        m
    }
}

/// The square in front of a pawn of colour `color` on `sq`.
pub open spec fn stop_square(color: bool, sq: u64) -> u64 {
    if color {
        (sq + 8) as u64
    } else {
        (sq - 8) as u64
    }
}

/// Only meaningful for pawns that aren't isolated - callers should skip this check otherwise.
/// A pawn is backward when no friendly pawn can come up beside it and an enemy pawn already
/// controls its stop square.
pub fn pawn_backward(sq_i: u8, color: bool, board: &Board) -> (backward: bool)
    requires
        sq_i < 64,
        color ==> sq_i < 56,
        !color ==> sq_i >= 8,
    ensures
        backward == ((forall|s: u64|
            backward_span(color, sq_i as u64, s) ==> !#[trigger] has_sq(pawns_of(board, color), s))
            && (exists|s: u64|
            pawn_attack(color, stop_square(color, sq_i as u64), s) && #[trigger] has_sq(
                enemy_pawns(board, color),
                s,
            ))),
{
    let friendly_pawns: u64 = if color {
        board.white_pieces & board.pawns
    } else {
        board.black_pieces & board.pawns
    };
    let support_mask: u64 = backward_pawn_mask(color, sq_i);
    proof {
        assert(friendly_pawns == pawns_of(board, color));
        lemma_and_empty(support_mask, friendly_pawns);
    }
    if support_mask & friendly_pawns != 0 {
        proof {
            let w: u64 = choose|s: u64| has_sq(support_mask, s) && has_sq(friendly_pawns, s);
            assert(has_sq(support_mask, w));
        }
        return false;
    }
    proof {
        assert forall|s: u64| backward_span(color, sq_i as u64, s) implies !#[trigger] has_sq(
            pawns_of(board, color),
            s,
        ) by {
            assert(has_sq(support_mask, s));
        }
    }

    // the stop square (directly ahead for white, directly behind for black). indexing the
    // same-color pawn attack table at this square gives exactly the squares an opposing pawn
    // would need to stand on to control it, since that pattern is the mirror of the opposing
    // color's attack pattern.
    let stop_sq_i: u8 = if color {
        sq_i + 8
    } else {
        sq_i - 8
    };
    let attacker_mask: u64 = pawn_attacks(color, stop_sq_i);
    let opponent_pawns: u64 = if color {
        board.black_pieces & board.pawns
    } else {
        board.white_pieces & board.pawns
    };
    let backward: bool = attacker_mask & opponent_pawns != 0;
    proof {
        assert(opponent_pawns == enemy_pawns(board, color));
        assert(stop_sq_i as u64 == stop_square(color, sq_i as u64));
        lemma_and_empty(attacker_mask, opponent_pawns);
        if backward {
            let w: u64 = choose|s: u64| has_sq(attacker_mask, s) && has_sq(opponent_pawns, s);
            assert(has_sq(attacker_mask, w));
            assert(pawn_attack(color, stop_square(color, sq_i as u64), w) && has_sq(
                enemy_pawns(board, color),
                w,
            ));
        } else {
            assert forall|s: u64|
                pawn_attack(color, stop_square(color, sq_i as u64), s) implies !#[trigger] has_sq(
                enemy_pawns(board, color),
                s,
            ) by {
                assert(has_sq(attacker_mask, s));
            }
        }
    }
    backward
}

} // verus!
