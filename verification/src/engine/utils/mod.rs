pub mod geometry;
pub mod king;
pub mod moves;
pub mod pawns;
pub mod ttable;

pub use self::geometry::{square_file, square_rank};
pub use self::king::{
    king_zone_mask, generate_king_zone_masks, king_zone_pawn_attacker_mask,
    generate_king_zone_pawn_attacker_masks,
};
pub use self::pawns::{
    passed_pawn_mask, generate_passed_pawns_masks, pawn_passed, generate_adjacent_file_masks,
    pawn_isolated, backward_pawn_mask, generate_backward_pawn_masks, pawn_attacks, pawn_backward,
};
pub use self::ttable::{
    TT_EXACT_FLAG, TT_LOWERB_FLAG, TT_UPPERB_FLAG, relevance_score, to_tt_score, from_tt_score,
    encode_tt_entry, decode_tt_entry,
};
pub use self::ttable::{
    tt_should_replace, update_tt, retrieve_tt, retrieve_tt_or_none, entry_for_key,
};
pub use self::moves::{is_capture, has_pieces};
pub use self::king::{shield_file_tier, pawn_shield_score, FileCover, king_file_weakness};
