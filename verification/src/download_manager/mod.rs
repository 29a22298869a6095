//! Saving verified pieces: where in the file each piece goes.
pub mod errors;
pub mod types;

pub use errors::DownloadManagerError;
pub use types::{plan_piece_write, Piece, PieceWrite};
