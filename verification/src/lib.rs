//! The core of a BitTorrent client: the peer wire protocol, the piece
//! scheduler, the piece verifier and the plumbing that ties them together.
//!
//! Every function in this crate is checked by Verus against the contract
//! written in its header. The few that call out of the crate (the SHA-1
//! digest, UTF-8 decoding, the words of an input/output error) are trusted
//! instead, and say so where they stand.
//!
//! The workers of the client (scheduler, connection manager, verifier) are
//! written as state machines: each takes one message at a time and says what
//! is to be sent in answer. A channel between two workers is held as a
//! queue; whoever runs the workers carries the queues' contents across.
pub mod application_errors;
pub mod bencode;
pub mod bytes;
pub mod config;
pub mod download_manager;
pub mod hashing;
pub mod metainfo;
pub mod peer;
pub mod peer_connection_manager;
pub mod piece_manager;
pub mod piece_saver;
pub mod tracker;
