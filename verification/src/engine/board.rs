use vstd::prelude::*;
use crate::engine::bitboard::has_sq;

verus! {

/// A chess position as the evaluator reads it: one bitboard per piece type and per colour
/// (square 0 = a1, 63 = h8), the side to move, the move counter, the en-passant target and
/// the position's hash, plus the squares that each kind of piece would attack from each square.
pub struct Board {
    pub pawns: u64,
    pub knights: u64,
    pub bishops: u64,
    pub rooks: u64,
    pub queens: u64,
    pub kings: u64,
    pub white_pieces: u64,
    pub black_pieces: u64,
    /// `true` when White is to move.
    pub side_to_move: bool,
    pub fullmove_number: u32,
    /// The en-passant target square as a bitboard (0 when there is none).
    pub en_passant: u64,
    pub zobrist_hash: u64,
    /// `attack_sets[(t - 1) * 128 + c * 64 + sq]` (t = 1 knight, 2 bishop, 3 rook, 4 queen;
    /// c = 0 White, 1 Black) holds the squares that a piece of kind `t` and colour `c`
    /// standing on `sq` attacks in this position, as the move generator computes them.
    pub attack_sets: Vec<u64>,
}

proof fn lemma_bit_test(x: u64, sq: u64)
    by (bit_vector)
    requires
        sq < 64,
    ensures
        (x & (1u64 << sq) != 0) == has_sq(x, sq),
{
}

/// The kind of piece on `sq` (0 pawn, 1 knight, 2 bishop, 3 rook, 4 queen, 5 king), looked up
/// in that order, or `None` on an empty square.
pub open spec fn piece_on(b: &Board, sq: u64) -> Option<u8> {
    if has_sq(b.pawns, sq) {
        Some(0u8)
    } else if has_sq(b.knights, sq) {
        Some(1u8)
    } else if has_sq(b.bishops, sq) {
        Some(2u8)
    } else if has_sq(b.rooks, sq) {
        Some(3u8)
    } else if has_sq(b.queens, sq) {
        Some(4u8)
    } else if has_sq(b.kings, sq) {
        Some(5u8)
    } else {
        None
    }
}

impl Board {
    /// The kind of piece standing on `sq`, if any.
    pub fn piece_type_at(&self, sq: u8) -> (t: Option<u8>)
        requires
            sq < 64,
        ensures
            t == piece_on(self, sq as u64),
    {
        let b: u64 = 1u64 << sq;
        proof {
            lemma_bit_test(self.pawns, sq as u64);
            lemma_bit_test(self.knights, sq as u64);
            lemma_bit_test(self.bishops, sq as u64);
            lemma_bit_test(self.rooks, sq as u64);
            lemma_bit_test(self.queens, sq as u64);
            lemma_bit_test(self.kings, sq as u64);
        }
        if self.pawns & b != 0 {
            Some(0)
        } else if self.knights & b != 0 {
            Some(1)
        } else if self.bishops & b != 0 {
            Some(2)
        } else if self.rooks & b != 0 {
            Some(3)
        } else if self.queens & b != 0 {
            Some(4)
        } else if self.kings & b != 0 {
            Some(5)
        } else {
            None
        }
    }

    /// The squares attacked by a piece of kind `t` (1..=4) and the given colour on `sq`.
    pub open spec fn attack_set(&self, t: u8, white: bool, sq: u64) -> u64 {
        self.attack_sets@[(t - 1) * 128 + (if white {
            0int
        } else {
            64int
        }) + sq]
    }

    /// The squares attacked by a piece of kind `t` (1 knight, 2 bishop, 3 rook, 4 queen) and
    /// the given colour standing on `sq`.
    pub fn attacks(&self, t: u8, white: bool, sq: usize) -> (a: u64)
        requires
            self.attack_sets@.len() == 512,
            1 <= t <= 4,
            sq < 64,
        ensures
            a == self.attack_set(t, white, sq as u64),
    {
        let colour: usize = if white {
            0
        } else {
            64
        };
        self.attack_sets[(t as usize - 1) * 128 + colour + sq]
    }
}

} // verus!
