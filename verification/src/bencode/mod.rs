//! The bencode format: values and their encoding.
pub mod decoder;
pub mod encoder;
pub mod inverse;
pub mod laws;
pub mod types;
pub mod unique;

pub use types::BencodeDecodedValue;
pub use encoder::encode;
pub use decoder::{decode, BencodeDecoderError};
