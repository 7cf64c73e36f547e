pub mod bitboard;
pub mod board;
pub mod eval;
pub mod eval_heuristics;
pub mod lists;
pub mod ordering;
pub mod search;
pub mod search_heuristics;
pub mod symmetry;
pub mod utils;
