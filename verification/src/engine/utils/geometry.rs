use vstd::prelude::*;
use crate::engine::bitboard::{
    file_bb, rank_bb, has_sq, lemma_file_bb, lemma_rank_bb, lemma_has_or, lemma_and_empty,
};
use crate::engine::eval::{FILE_MASK, RANK_MASK};

verus! {

/// File of a square, 1 (a-file) to 8 (h-file).
pub fn square_file(sq: u8) -> (f: u8)
    requires
        sq < 64,
    ensures
        f == sq % 8 + 1,
{
    sq % 8 + 1
}

/// Rank of a square, 1 to 8.
pub fn square_rank(sq: u8) -> (r: u8)
    requires
        sq < 64,
    ensures
        r == sq / 8 + 1,
{
    sq / 8 + 1
}

pub proof fn lemma_file_mask_entry(f: u64)
    requires
        f < 8,
    ensures
        FILE_MASK[f as int] == file_bb(f),
{
    assert(0x0101010101010101u64 << 0u64 == 0x0101010101010101u64
        && 0x0101010101010101u64 << 1u64 == 0x0202020202020202u64
        && 0x0101010101010101u64 << 2u64 == 0x0404040404040404u64
        && 0x0101010101010101u64 << 3u64 == 0x0808080808080808u64
        && 0x0101010101010101u64 << 4u64 == 0x1010101010101010u64
        && 0x0101010101010101u64 << 5u64 == 0x2020202020202020u64
        && 0x0101010101010101u64 << 6u64 == 0x4040404040404040u64
        && 0x0101010101010101u64 << 7u64 == 0x8080808080808080u64) by (bit_vector);
}

pub proof fn lemma_rank_mask_entry(r: u64)
    requires
        r < 8,
    ensures
        RANK_MASK[r as int] == rank_bb(r),
{
    assert(0xFFu64 << 0u64 == 0xFFu64
        && 0xFFu64 << 8u64 == 0xFF00u64
        && 0xFFu64 << 16u64 == 0xFF0000u64
        && 0xFFu64 << 24u64 == 0xFF000000u64
        && 0xFFu64 << 32u64 == 0xFF00000000u64
        && 0xFFu64 << 40u64 == 0xFF0000000000u64
        && 0xFFu64 << 48u64 == 0xFF000000000000u64
        && 0xFFu64 << 56u64 == 0xFF00000000000000u64) by (bit_vector);
}

/// The squares of `FILE_MASK[f]` are those of file `f`.
pub proof fn lemma_file_mask(f: u64, s: u64)
    requires
        f < 8,
    ensures
        has_sq(FILE_MASK[f as int], s) == (s < 64 && s % 8 == f),
{
    lemma_file_mask_entry(f);
    lemma_file_bb(f, s);
}

/// The squares of `RANK_MASK[r]` are those of rank `r`.
pub proof fn lemma_rank_mask(r: u64, s: u64)
    requires
        r < 8,
    ensures
        has_sq(RANK_MASK[r as int], s) == (s < 64 && s / 8 == r),
{
    lemma_rank_mask_entry(r);
    lemma_rank_bb(r, s);
}


/// `s` lies on the file of `sq` or on a file next to it.
pub open spec fn near_file(sq: u64, s: u64) -> bool {
    -1 <= (s % 8) as int - (sq % 8) as int <= 1
}

pub proof fn lemma_two_files(a: u64, b: u64, s: u64)
    requires
        a < 8,
        b < 8,
    ensures
        has_sq(FILE_MASK[a as int] | FILE_MASK[b as int], s) == (s < 64 && (s % 8 == a || s % 8
            == b)),
{
    lemma_has_or(FILE_MASK[a as int], FILE_MASK[b as int], s);
    lemma_file_mask(a, s);
    lemma_file_mask(b, s);
}

pub proof fn lemma_three_files(a: u64, b: u64, c: u64, s: u64)
    requires
        a < 8,
        b < 8,
        c < 8,
    ensures
        has_sq(FILE_MASK[a as int] | FILE_MASK[b as int] | FILE_MASK[c as int], s) == (s < 64 && (s
            % 8 == a || s % 8 == b || s % 8 == c)),
{
    lemma_two_files(a, b, s);
    lemma_has_or(FILE_MASK[a as int] | FILE_MASK[b as int], FILE_MASK[c as int], s);
    lemma_file_mask(c, s);
}


/// Some square of `bb` lies on file `f` (0 = a-file).
pub open spec fn on_file(bb: u64, f: u64) -> bool {
    exists|s: u64| #[trigger] has_sq(bb, s) && s % 8 == f
}

/// Some square of `bb` lies on rank `r` (0 = first rank).
pub open spec fn on_rank(bb: u64, r: u64) -> bool {
    exists|s: u64| #[trigger] has_sq(bb, s) && s / 8 == r
}

pub proof fn lemma_file_meets(bb: u64, f: u64)
    requires
        f < 8,
    ensures
        (FILE_MASK[f as int] & bb != 0) == on_file(bb, f),
{
    let m: u64 = FILE_MASK[f as int];
    lemma_and_empty(m, bb);
    if m & bb != 0 {
        let w: u64 = choose|s: u64| has_sq(m, s) && has_sq(bb, s);
        lemma_file_mask(f, w);
        assert(has_sq(bb, w) && w % 8 == f);
    } else if on_file(bb, f) {
        let w: u64 = choose|s: u64| #[trigger] has_sq(bb, s) && s % 8 == f;
        lemma_file_mask(f, w);
        assert(has_sq(m, w));
    }
}

pub proof fn lemma_rank_meets(bb: u64, r: u64)
    requires
        r < 8,
    ensures
        (RANK_MASK[r as int] & bb != 0) == on_rank(bb, r),
{
    let m: u64 = RANK_MASK[r as int];
    lemma_and_empty(m, bb);
    if m & bb != 0 {
        let w: u64 = choose|s: u64| has_sq(m, s) && has_sq(bb, s);
        lemma_rank_mask(r, w);
        assert(has_sq(bb, w) && w / 8 == r);
    } else if on_rank(bb, r) {
        let w: u64 = choose|s: u64| #[trigger] has_sq(bb, s) && s / 8 == r;
        lemma_rank_mask(r, w);
        assert(has_sq(m, w));
    }
}

} // verus!
