pub mod engine;
pub mod evaluate;
pub mod uci;
