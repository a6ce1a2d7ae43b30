pub mod board;
pub mod error;
pub mod piece;
