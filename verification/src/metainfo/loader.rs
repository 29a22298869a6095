//! Reading a torrent descriptor from the bytes of a torrent file.
use super::types::{Info, Metainfo, MetainfoParserError, MetainfoView};
use crate::bencode::decoder::{decode, is_bencode};
use crate::bencode::encoder::{encode_dictionary, spec_encode};
use crate::bencode::types::BencodeDecodedValue;
use crate::bytes::{bytes_equal, copy_range};
use crate::hashing::{sha1_digest, sha1_of};
use vstd::prelude::*;
use vstd::string::StringSliceAdditionalSpecFns;
use vstd::utf8::{decode_utf8, valid_utf8};

verus! {

/// The key of the tracker's address.
pub const ANNOUNCE: &'static str = "announce";

/// The key of the dictionary that describes the content.
pub const INFO: &'static str = "info";

/// The key of the length of a piece.
pub const PIECE_LENGTH: &'static str = "piece length";

/// The key of the digests of the pieces.
pub const PIECES: &'static str = "pieces";

/// The key of the length of the content.
pub const LENGTH: &'static str = "length";

/// The key of the name of the content.
pub const NAME: &'static str = "name";

/// Reads bytes as UTF-8 text with `String::from_utf8` of the standard
/// library. Trusted: text comes back exactly if the bytes are valid UTF-8,
/// and it is the text that the bytes encode.
#[verifier::external_body]
fn utf8_text(bytes: &[u8]) -> (text: Option<String>)
    ensures
        text is Some <==> valid_utf8(bytes@),
        text matches Some(read) ==> read@ == decode_utf8(bytes@),
{
    String::from_utf8(bytes.to_vec()).ok()
}

/// The value of the first entry with the key `key`.
pub open spec fn entry_for(
    entries: Seq<(Vec<u8>, BencodeDecodedValue)>,
    key: Seq<u8>,
    from: int,
) -> Option<BencodeDecodedValue>
    decreases entries.len() - from,
{
    if from < 0 || from >= entries.len() {
        None
    } else if entries[from].0@ == key {
        Some(entries[from].1)
    } else {
        entry_for(entries, key, from + 1)
    }
}

/// The bytes of the string that the entries hold for `key`.
pub open spec fn string_for(entries: Seq<(Vec<u8>, BencodeDecodedValue)>, key: Seq<u8>) -> Option<
    Seq<u8>,
> {
    match entry_for(entries, key, 0) {
        Some(BencodeDecodedValue::String(bytes)) => Some(bytes@),
        _ => None,
    }
}

/// The text that the entries hold for `key`.
pub open spec fn text_for(entries: Seq<(Vec<u8>, BencodeDecodedValue)>, key: Seq<u8>) -> Option<
    Seq<char>,
> {
    match string_for(entries, key) {
        Some(bytes) => if valid_utf8(bytes) {
            Some(decode_utf8(bytes))
        } else {
            None
        },
        None => None,
    }
}

/// The number that the entries hold for `key`.
pub open spec fn number_for(entries: Seq<(Vec<u8>, BencodeDecodedValue)>, key: Seq<u8>) -> Option<
    i64,
> {
    match entry_for(entries, key, 0) {
        Some(BencodeDecodedValue::Integer(number)) => Some(number),
        _ => None,
    }
}

/// The digests that the string `pieces` holds, 20 bytes each; what is left
/// over at the end belongs to no digest.
pub open spec fn digests_of(pieces: Seq<u8>) -> Seq<Seq<u8>> {
    Seq::new((pieces.len() / 20) as nat, |index: int| pieces.subrange(20 * index, 20 * index + 20))
}

/// The descriptor that the dictionary `info` and the tracker's address give
/// for a torrent whose identifier is `info_hash`. The dictionary must hold
/// a piece length that fits 32 bits, the digests, a length that is not
/// negative, and a name that is text; the first of them that is missing is
/// reported. Digests that do not fill the string they come in are reported,
/// and so is whatever else is wrong with the descriptor.
pub open spec fn described(
    announce: Seq<char>,
    info: Seq<(Vec<u8>, BencodeDecodedValue)>,
    info_hash: Seq<u8>,
) -> Result<MetainfoView, MetainfoParserError> {
    match number_for(info, PIECE_LENGTH.spec_bytes()) {
        None => Err(MetainfoParserError::MissingPieceLength),
        Some(piece_length) => if piece_length < 0 || piece_length > u32::MAX {
            Err(MetainfoParserError::MissingPieceLength)
        } else {
            match string_for(info, PIECES.spec_bytes()) {
                None => Err(MetainfoParserError::MissingPieces),
                Some(pieces) => match number_for(info, LENGTH.spec_bytes()) {
                    None => Err(MetainfoParserError::MissingLength),
                    Some(length) => if length < 0 {
                        Err(MetainfoParserError::MissingLength)
                    } else {
                        match text_for(info, NAME.spec_bytes()) {
                            None => Err(MetainfoParserError::MissingName),
                            Some(name) => if pieces.len() % 20 != 0 {
                                Err(MetainfoParserError::WrongDigestLength)
                            } else {
                                let metainfo = MetainfoView {
                                    announce,
                                    piece_length: piece_length as u32,
                                    pieces: digests_of(pieces),
                                    length: length as u64,
                                    name,
                                    info_hash,
                                };
                                match metainfo.fault() {
                                    Some(fault) => Err(fault),
                                    None => Ok(metainfo),
                                }
                            },
                        }
                    },
                },
            }
        },
    }
}

/// The descriptor that a bencoded value gives. The value must be a
/// dictionary that holds the tracker's address as text and the dictionary
/// that describes the content; the torrent's identifier is the SHA-1 digest
/// of the encoding of that dictionary.
pub open spec fn spec_from_bencode(value: BencodeDecodedValue) -> Result<
    MetainfoView,
    MetainfoParserError,
> {
    match value {
        BencodeDecodedValue::Dictionary(entries) => match text_for(
            entries@,
            ANNOUNCE.spec_bytes(),
        ) {
            None => Err(MetainfoParserError::MissingAnnounce),
            Some(announce) => match entry_for(entries@, INFO.spec_bytes(), 0) {
                Some(BencodeDecodedValue::Dictionary(info)) => described(
                    announce,
                    info@,
                    sha1_digest(spec_encode(BencodeDecodedValue::Dictionary(info))),
                ),
                _ => Err(MetainfoParserError::MissingInfo),
            },
        },
        _ => Err(MetainfoParserError::NotADictionary),
    }
}

/// The value of the first entry with the key `key`.
fn find_entry<'a>(entries: &'a Vec<(Vec<u8>, BencodeDecodedValue)>, key: &str) -> (found: Option<
    &'a BencodeDecodedValue,
>)
    ensures
        match found {
            Some(value) => entry_for(entries@, key.spec_bytes(), 0) == Some(*value),
            None => entry_for(entries@, key.spec_bytes(), 0) is None,
        },
{
    let mut at: usize = 0;
    while at < entries.len()
        invariant
            at <= entries@.len(),
            entry_for(entries@, key.spec_bytes(), 0) == entry_for(
                entries@,
                key.spec_bytes(),
                at as int,
            ),
        decreases entries@.len() - at,
    {
        if bytes_equal(entries[at].0.as_slice(), key.as_bytes()) {
            return Some(&entries[at].1);
        }
        at += 1;
    }
    None
}

/// The bytes of the string that the entries hold for `key`.
fn find_string<'a>(entries: &'a Vec<(Vec<u8>, BencodeDecodedValue)>, key: &str) -> (found: Option<
    &'a Vec<u8>,
>)
    ensures
        match found {
            Some(bytes) => string_for(entries@, key.spec_bytes()) == Some(bytes@),
            None => string_for(entries@, key.spec_bytes()) is None,
        },
{
    match find_entry(entries, key) {
        Some(BencodeDecodedValue::String(bytes)) => Some(bytes),
        _ => None,
    }
}

/// The text that the entries hold for `key`.
fn find_text(entries: &Vec<(Vec<u8>, BencodeDecodedValue)>, key: &str) -> (found: Option<String>)
    ensures
        match found {
            Some(text) => text_for(entries@, key.spec_bytes()) == Some(text@),
            None => text_for(entries@, key.spec_bytes()) is None,
        },
{
    match find_string(entries, key) {
        Some(bytes) => utf8_text(bytes.as_slice()),
        None => None,
    }
}

/// The number that the entries hold for `key`.
fn find_number(entries: &Vec<(Vec<u8>, BencodeDecodedValue)>, key: &str) -> (found: Option<i64>)
    ensures
        found == number_for(entries@, key.spec_bytes()),
{
    match find_entry(entries, key) {
        Some(BencodeDecodedValue::Integer(number)) => Some(*number),
        _ => None,
    }
}

/// Cuts a string of digests into digests of 20 bytes.
fn split_digests(pieces: &[u8]) -> (digests: Vec<Vec<u8>>)
    ensures
        digests@.map_values(|digest: Vec<u8>| digest@) == digests_of(pieces@),
{
    let count: usize = pieces.len() / 20;
    let mut digests: Vec<Vec<u8>> = Vec::new();
    let mut index: usize = 0;
    while index < count
        invariant
            index <= count,
            count == pieces@.len() / 20,
            20 * count <= pieces@.len() <= usize::MAX,
            digests@.len() == index,
            forall|i: int|
                0 <= i < index ==> (#[trigger] digests@[i])@ == pieces@.subrange(
                    20 * i,
                    20 * i + 20,
                ),
        decreases count - index,
    {
        digests.push(copy_range(pieces, 20 * index, 20 * index + 20));
        index += 1;
    }
    assert(digests@.map_values(|digest: Vec<u8>| digest@) =~= digests_of(pieces@));
    digests
}

impl Metainfo {
    /// Makes the descriptor that a bencoded value gives, and says what the
    /// value lacks if it gives none.
    pub fn from_bencode(value: &BencodeDecodedValue) -> (made: Result<
        Metainfo,
        MetainfoParserError,
    >)
        ensures
            match made {
                Ok(metainfo) => spec_from_bencode(*value) == Ok::<
                    MetainfoView,
                    MetainfoParserError,
                >(metainfo@),
                Err(error) => spec_from_bencode(*value) == Err::<MetainfoView, MetainfoParserError>(
                    error,
                ),
            },
            made matches Ok(metainfo) ==> metainfo@.well_formed(),
    {
        let entries = match value {
            BencodeDecodedValue::Dictionary(entries) => entries,
            _ => {
                return Err(MetainfoParserError::NotADictionary);
            },
        };
        let announce = match find_text(entries, ANNOUNCE) {
            Some(announce) => announce,
            None => {
                return Err(MetainfoParserError::MissingAnnounce);
            },
        };
        let info = match find_entry(entries, INFO) {
            Some(BencodeDecodedValue::Dictionary(info)) => info,
            _ => {
                return Err(MetainfoParserError::MissingInfo);
            },
        };
        let piece_length: u32 = match find_number(info, PIECE_LENGTH) {
            Some(number) => {
                if number < 0 || number > 0xffff_ffff {
                    return Err(MetainfoParserError::MissingPieceLength);
                }
                number as u32
            },
            None => {
                return Err(MetainfoParserError::MissingPieceLength);
            },
        };
        let pieces = match find_string(info, PIECES) {
            Some(pieces) => pieces,
            None => {
                return Err(MetainfoParserError::MissingPieces);
            },
        };
        let length: u64 = match find_number(info, LENGTH) {
            Some(number) => {
                if number < 0 {
                    return Err(MetainfoParserError::MissingLength);
                }
                number as u64
            },
            None => {
                return Err(MetainfoParserError::MissingLength);
            },
        };
        let name = match find_text(info, NAME) {
            Some(name) => name,
            None => {
                return Err(MetainfoParserError::MissingName);
            },
        };
        if pieces.len() % 20 != 0 {
            return Err(MetainfoParserError::WrongDigestLength);
        }
        let info_hash = sha1_of(encode_dictionary(info).as_slice());
        let metainfo = Metainfo {
            announce,
            info: Info { piece_length, pieces: split_digests(pieces.as_slice()), length, name },
            info_hash,
        };
        match metainfo.validate() {
            Ok(()) => Ok(metainfo),
            Err(fault) => Err(fault),
        }
    }

    /// Reads a descriptor from the bytes of a torrent file. Bytes that are
    /// not bencode are refused as such. Bytes that are bencode are the
    /// encoding of a value, and the outcome is what that value gives.
    pub fn from_torrent(bytes: &[u8]) -> (made: Result<Metainfo, MetainfoParserError>)
        ensures
            !is_bencode(bytes@) ==> made == Err::<Metainfo, MetainfoParserError>(
                MetainfoParserError::NotBencode,
            ),
            is_bencode(bytes@) ==> exists|value: BencodeDecodedValue|
                spec_encode(value) == bytes@ && #[trigger] spec_from_bencode(value) == match made {
                    Ok(metainfo) => Ok::<MetainfoView, MetainfoParserError>(metainfo@),
                    Err(error) => Err::<MetainfoView, MetainfoParserError>(error),
                },
            made matches Ok(metainfo) ==> metainfo@.well_formed(),
    {
        match decode(bytes) {
            Ok(value) => Metainfo::from_bencode(&value),
            Err(_) => Err(MetainfoParserError::NotBencode),
        }
    }
}

} // verus!
