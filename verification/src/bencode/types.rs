use vstd::prelude::*;

verus! {

/// A value of the bencode format.
#[derive(Debug)]
pub enum BencodeDecodedValue {
    /// A whole number.
    Integer(i64),
    /// A byte string.
    String(Vec<u8>),
    /// A list of values.
    List(Vec<BencodeDecodedValue>),
    /// A dictionary: byte-string keys with their values, in any order. The
    /// encoding puts them in the order of their keys.
    Dictionary(Vec<(Vec<u8>, BencodeDecodedValue)>),
    /// The mark that ends a list or a dictionary; it has no encoding of its
    /// own.
    End,
}

} // verus!
