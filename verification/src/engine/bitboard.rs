use vstd::prelude::*;

verus! {

/// Square `sq` (0 = a1, 7 = h1, 56 = a8, 63 = h8) is set in bitboard `bb`.
pub open spec fn has_sq(bb: u64, sq: u64) -> bool {
    sq < 64 && (bb >> sq) & 1 == 1
}

/// Number of set bits of `x`.
pub open spec fn popcount(x: u64) -> nat
    decreases x,
{
    if x == 0 {
        0
    } else {
        (x % 2) as nat + popcount(x / 2)
    }
}

proof fn lemma_shift_step(x: u64, i: u64, j: u64)
    by (bit_vector)
    requires
        i < 64,
        j == i + 1,
    ensures
        (x >> i) >> 1u64 == x >> j,
        ((x >> i) & 1) == (x >> i) % 2,
        (x >> i) >> 1u64 == (x >> i) / 2,
{
}

proof fn lemma_shift_all(x: u64)
    by (bit_vector)
    ensures
        x >> 64u64 == 0,
        x >> 0u64 == x,
{
}

/// Number of squares set in `x`.
pub fn count_bits(x: u64) -> (n: u32)
    ensures
        n == popcount(x),
        n <= 64,
{
    let mut y: u64 = x;
    let mut n: u32 = 0;
    let mut i: u64 = 0;
    proof {
        lemma_shift_all(x);
    }
    while i < 64
        invariant
            i <= 64,
            y == x >> i,
            n <= i,
            popcount(x) == n + popcount(y),
        decreases 64 - i,
    {
        proof {
            lemma_shift_step(x, i, (i + 1) as u64);
        }
        let bit: u64 = y & 1;
        n = n + (bit as u32);
        y = y >> 1;
        i = i + 1;
    }
    proof {
        lemma_shift_all(x);
    }
    n
}


/// The bitboard of file `f` (0 = a-file).
pub open spec fn file_bb(f: u64) -> u64 {
    0x0101010101010101u64 << f
}

/// The bitboard of rank `r` (0 = first rank).
pub open spec fn rank_bb(r: u64) -> u64 {
    0xFFu64 << (8 * r)
}

pub proof fn lemma_has_or(a: u64, b: u64, s: u64)
    by (bit_vector)
    ensures
        has_sq(a | b, s) == (has_sq(a, s) || has_sq(b, s)),
{
}

pub proof fn lemma_has_and(a: u64, b: u64, s: u64)
    by (bit_vector)
    ensures
        has_sq(a & b, s) == (has_sq(a, s) && has_sq(b, s)),
{
}

pub proof fn lemma_has_not(a: u64, s: u64)
    by (bit_vector)
    requires
        s < 64,
    ensures
        has_sq(!a, s) == !has_sq(a, s),
{
}

pub proof fn lemma_has_zero(s: u64)
    by (bit_vector)
    ensures
        !has_sq(0u64, s),
{
}

pub proof fn lemma_has_single(k: u64, s: u64)
    by (bit_vector)
    requires
        k < 64,
    ensures
        has_sq(1u64 << k, s) == (s == k),
{
}

pub proof fn lemma_file_bb(f: u64, s: u64)
    by (bit_vector)
    requires
        f < 8,
    ensures
        has_sq(0x0101010101010101u64 << f, s) == (s < 64 && s % 8 == f),
{
}

pub proof fn lemma_rank_bb(r: u64, s: u64)
    by (bit_vector)
    requires
        r < 8,
    ensures
        has_sq(0xFFu64 << (8 * r), s) == (s < 64 && s / 8 == r),
{
}

/// A bitboard is empty exactly when no square is set in it.
pub proof fn lemma_empty_iff(x: u64)
    ensures
        (x == 0) == (forall|s: u64| !#[trigger] has_sq(x, s)),
{
    if x == 0 {
        assert forall|s: u64| !#[trigger] has_sq(x, s) by {
            lemma_has_zero(s);
        }
    } else {
        vstd::std_specs::bits::axiom_u64_trailing_zeros(x);
        let t: u64 = vstd::std_specs::bits::u64_trailing_zeros(x) as u64;
        assert(has_sq(x, t));
    }
}


/// Two bitboards share a square exactly when their intersection is not empty.
pub proof fn lemma_and_empty(a: u64, b: u64)
    ensures
        (a & b == 0) == (forall|s: u64| #![trigger has_sq(a, s)] #![trigger has_sq(b, s)]
            !(has_sq(a, s) && has_sq(b, s))),
{
    lemma_empty_iff(a & b);
    if a & b == 0 {
        assert forall|s: u64| #![trigger has_sq(a, s)] #![trigger has_sq(b, s)]
            !(has_sq(a, s) && has_sq(b, s)) by {
            lemma_has_and(a, b, s);
        }
    } else {
        let w: u64 = choose|s: u64| has_sq(a & b, s);
        lemma_has_and(a, b, w);
    }
}


/// The lowest square set in a non-empty bitboard.
pub open spec fn lowest_sq(x: u64) -> u64 {
    vstd::std_specs::bits::u64_trailing_zeros(x) as u64
}

proof fn lemma_low_mask(t: u64, j: u64)
    by (bit_vector)
    requires
        t < 64,
    ensures
        has_sq(!(0xFFFF_FFFF_FFFF_FFFFu64 << t), j) == (j < t),
{
}

proof fn lemma_clear_lowest_bv(x: u64, t: u64, s: u64)
    by (bit_vector)
    requires
        t < 64,
        (x >> t) & 1 == 1,
        x & !(0xFFFF_FFFF_FFFF_FFFFu64 << t) == 0,
    ensures
        has_sq(x & ((x - 1) as u64), s) == (has_sq(x, s) && s != t),
{
}

/// Clearing the lowest set bit (`x & (x - 1)`) removes exactly the lowest square, which is the
/// square that `trailing_zeros` names.
pub proof fn lemma_clear_lowest(x: u64)
    requires
        x != 0,
    ensures
        lowest_sq(x) < 64,
        has_sq(x, lowest_sq(x)),
        forall|s: u64| s < lowest_sq(x) ==> !#[trigger] has_sq(x, s),
        forall|s: u64| #[trigger]
            has_sq(x & ((x - 1) as u64), s) == (has_sq(x, s) && s != lowest_sq(x)),
{
    vstd::std_specs::bits::axiom_u64_trailing_zeros(x);
    let t: u64 = lowest_sq(x);
    assert(t < 64);
    assert forall|s: u64| s < t implies !#[trigger] has_sq(x, s) by {
        assert((x >> s) & 1u64 == 0u64);
    }
    let low: u64 = !(0xFFFF_FFFF_FFFF_FFFFu64 << t);
    assert forall|j: u64| !#[trigger] has_sq(x & low, j) by {
        lemma_has_and(x, low, j);
        lemma_low_mask(t, j);
    }
    lemma_empty_iff(x & low);
    assert forall|s: u64| #[trigger] has_sq(x & ((x - 1) as u64), s) == (has_sq(x, s) && s != t) by {
        lemma_clear_lowest_bv(x, t, s);
    }
}


proof fn lemma_popcount_double(z: u64)
    requires
        z < 0x8000_0000_0000_0000,
    ensures
        popcount((2 * z) as u64) == popcount(z),
{
    if z != 0 {
        assert(((2 * z) as u64) % 2 == 0);
        assert(((2 * z) as u64) / 2 == z);
    }
}

proof fn lemma_clear_lowest_odd(x: u64)
    by (bit_vector)
    requires
        x & 1 == 1,
    ensures
        x & ((x - 1) as u64) == (x - 1) as u64,
{
}

proof fn lemma_clear_lowest_even(x: u64, y: u64)
    by (bit_vector)
    requires
        x & 1 == 0,
        x != 0,
        y == x / 2,
    ensures
        y != 0,
        x & ((x - 1) as u64) == ((y & ((y - 1) as u64)) * 2) as u64,
        y & ((y - 1) as u64) < 0x8000_0000_0000_0000,
{
}

/// Clearing the lowest set bit removes one square from the count.
pub proof fn lemma_popcount_clear_lowest(x: u64)
    requires
        x != 0,
    ensures
        popcount(x & ((x - 1) as u64)) + 1 == popcount(x),
    decreases x,
{
    assert((x & 1) == x % 2) by (bit_vector);
    if x % 2 == 1 {
        lemma_clear_lowest_odd(x);
        if x != 1 {
            assert(((x - 1) as u64) % 2 == 0);
            assert(((x - 1) as u64) / 2 == x / 2);
        }
    } else {
        let y: u64 = x / 2;
        lemma_clear_lowest_even(x, y);
        lemma_popcount_clear_lowest(y);
        lemma_popcount_double(y & ((y - 1) as u64));
    }
}

/// A bitboard holds at most 64 squares.
pub proof fn lemma_popcount_bound(x: u64)
    ensures
        popcount(x) <= 64,
{
    lemma_popcount_shift_bound(x, 0);
    lemma_shift_all(x);
}

proof fn lemma_popcount_shift_bound(x: u64, i: u64)
    requires
        i <= 64,
    ensures
        popcount(x >> i) <= 64 - i,
    decreases 64 - i,
{
    if i == 64 {
        lemma_shift_all(x);
    } else {
        lemma_shift_step(x, i, (i + 1) as u64);
        lemma_popcount_shift_bound(x, (i + 1) as u64);
    }
}


proof fn lemma_has_xor(a: u64, b: u64, s: u64)
    by (bit_vector)
    ensures
        has_sq(a ^ b, s) == (s < 64 && has_sq(a, s) != has_sq(b, s)),
{
}

/// Bitboards with the same squares are equal.
pub proof fn lemma_bits_ext(a: u64, b: u64)
    requires
        forall|s: u64| #[trigger] has_sq(a, s) == has_sq(b, s),
    ensures
        a == b,
{
    assert forall|s: u64| !#[trigger] has_sq(a ^ b, s) by {
        lemma_has_xor(a, b, s);
        assert(has_sq(a, s) == has_sq(b, s));
    }
    lemma_empty_iff(a ^ b);
    assert(a ^ b == 0 ==> a == b) by (bit_vector);
}

} // verus!
