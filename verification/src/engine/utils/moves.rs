use vstd::prelude::*;
use crate::engine::board::Board;

verus! {

/// Flags 1/3/8/9/10/11 are the capture move-type flags (normal capture, en passant, and the
/// four promotion-with-capture variants) of the move encoding.
pub open spec fn capture_flag(flag: u8) -> bool {
    flag == 1 || flag == 3 || flag == 8 || flag == 9 || flag == 10 || flag == 11
}

/// Whether a move whose decoded move-type flag is `flag` captures.
pub fn is_capture(flag: u8) -> (r: bool)
    ensures
        r == capture_flag(flag),
{
    let capture_flags: [u8; 6] = [1, 3, 8, 9, 10, 11];
    let mut i: usize = 0;
    while i < 6
        invariant
            i <= 6,
            capture_flags@ == seq![1u8, 3u8, 8u8, 9u8, 10u8, 11u8],
            forall|j: int| 0 <= j < i ==> capture_flags[j] != flag,
        decreases 6 - i,
    {
        if capture_flags[i] == flag {
            return true;
        }
        i = i + 1;
    }
    false
}

/// The side to move has a piece besides its king and pawns (so a null move cannot be a
/// zugzwang blunder).
pub open spec fn side_has_pieces(b: &Board) -> bool {
    let side = if b.side_to_move {
        b.white_pieces
    } else {
        b.black_pieces
    };
    (b.knights | b.bishops | b.rooks | b.queens) & side != 0
}

/// Whether the side to move still has a knight, bishop, rook or queen.
pub fn has_pieces(board: &Board) -> (r: bool)
    ensures
        r == side_has_pieces(board),
{
    let side: u64 = if board.side_to_move {
        board.white_pieces
    } else {
        board.black_pieces
    };
    (board.knights | board.bishops | board.rooks | board.queens) & side != 0
}

} // verus!
