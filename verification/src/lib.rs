pub mod board;
pub mod tetromino;
