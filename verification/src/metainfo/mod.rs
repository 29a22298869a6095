//! The torrent descriptor, as the core consumes it, and how it is read from
//! the bytes of a torrent file.
pub mod loader;
pub mod types;

pub use types::{
    lemma_fault_free_is_well_formed, lemma_pieces_tile, piece_offset, piece_size, piece_total,
    Info, Metainfo, MetainfoParserError, MetainfoView,
};
