//! The torrent descriptor, as the core consumes it.
use crate::bytes::copy_range;
use vstd::prelude::*;
use vstd::string::StringExecFns;

verus! {

/// The content a torrent describes: one file, cut into pieces.
#[derive(Debug)]
pub struct Info {
    /// The length of a piece in bytes; the last piece may be shorter.
    pub piece_length: u32,
    /// The SHA-1 digest of each piece, by index.
    pub pieces: Vec<Vec<u8>>,
    /// The length of the content in bytes.
    pub length: u64,
    /// The name of the content, which is the name of the file it is saved in.
    pub name: String,
}

/// A torrent descriptor.
#[derive(Debug)]
pub struct Metainfo {
    /// The tracker's address.
    pub announce: String,
    /// The content.
    pub info: Info,
    /// The 20-byte identifier of the torrent, which a handshake carries.
    pub info_hash: Vec<u8>,
}

/// What is wrong with a torrent descriptor.
#[derive(Debug, PartialEq, Eq, Clone, Copy, Structural)]
pub enum MetainfoParserError {
    /// The bytes are not bencode.
    NotBencode,
    /// The torrent is not a dictionary.
    NotADictionary,
    /// There is no tracker address, or it is no text.
    MissingAnnounce,
    /// There is no dictionary that describes the content.
    MissingInfo,
    /// There is no piece length, or it is no number that fits 32 bits.
    MissingPieceLength,
    /// There are no digests.
    MissingPieces,
    /// There is no content length, or it is a negative number.
    MissingLength,
    /// There is no name, or it is no text.
    MissingName,
    /// Pieces have no length.
    NoPieceLength,
    /// The digests are not as many as the pieces.
    WrongPieceCount,
    /// A digest is not 20 bytes long.
    WrongDigestLength,
    /// The torrent's identifier is not 20 bytes long.
    WrongInfoHashLength,
}

impl MetainfoParserError {
    /// The error in words.
    pub open spec fn text(self) -> Seq<char> {
        match self {
            MetainfoParserError::NotBencode => "The torrent is not bencoded"@,
            MetainfoParserError::NotADictionary => "The torrent is not a dictionary"@,
            MetainfoParserError::MissingAnnounce => "The torrent has no announce"@,
            MetainfoParserError::MissingInfo => "The torrent has no info"@,
            MetainfoParserError::MissingPieceLength => "The torrent has no piece length"@,
            MetainfoParserError::MissingPieces => "The torrent has no pieces"@,
            MetainfoParserError::MissingLength => "The torrent has no length"@,
            MetainfoParserError::MissingName => "The torrent has no name"@,
            MetainfoParserError::NoPieceLength => "Pieces have no length"@,
            MetainfoParserError::WrongPieceCount => "The digests are not as many as the pieces"@,
            MetainfoParserError::WrongDigestLength => "A digest is not 20 bytes long"@,
            MetainfoParserError::WrongInfoHashLength => "The info hash is not 20 bytes long"@,
        }
    }

    /// The error in words.
    pub fn to_text(&self) -> (text: String)
        ensures
            text@ == self.text(),
    {
        match self {
            MetainfoParserError::NotBencode => String::from_str("The torrent is not bencoded"),
            MetainfoParserError::NotADictionary => String::from_str(
                "The torrent is not a dictionary",
            ),
            MetainfoParserError::MissingAnnounce => String::from_str(
                "The torrent has no announce",
            ),
            MetainfoParserError::MissingInfo => String::from_str("The torrent has no info"),
            MetainfoParserError::MissingPieceLength => String::from_str(
                "The torrent has no piece length",
            ),
            MetainfoParserError::MissingPieces => String::from_str("The torrent has no pieces"),
            MetainfoParserError::MissingLength => String::from_str("The torrent has no length"),
            MetainfoParserError::MissingName => String::from_str("The torrent has no name"),
            MetainfoParserError::NoPieceLength => String::from_str("Pieces have no length"),
            MetainfoParserError::WrongPieceCount => String::from_str(
                "The digests are not as many as the pieces",
            ),
            MetainfoParserError::WrongDigestLength => String::from_str(
                "A digest is not 20 bytes long",
            ),
            MetainfoParserError::WrongInfoHashLength => String::from_str(
                "The info hash is not 20 bytes long",
            ),
        }
    }
}

/// What a torrent descriptor says, as plain values.
pub struct MetainfoView {
    pub announce: Seq<char>,
    pub piece_length: u32,
    pub pieces: Seq<Seq<u8>>,
    pub length: u64,
    pub name: Seq<char>,
    pub info_hash: Seq<u8>,
}

/// Where piece `index` starts in the content, for pieces of `piece_length`
/// bytes.
pub open spec fn piece_offset(piece_length: u32, index: u32) -> int {
    index * piece_length
}

/// How many bytes piece `index` has in a content of `length` bytes cut into
/// pieces of `piece_length`: a full piece, or what is left of the content for
/// the last one. An index past the content has no bytes.
pub open spec fn piece_size(piece_length: u32, length: u64, index: u32) -> int {
    let start = piece_offset(piece_length, index);
    if start >= length {
        0
    } else if length - start < piece_length {
        length - start
    } else {
        piece_length as int
    }
}

/// How many pieces a content of `length` bytes has when cut into pieces of
/// `piece_length`: the quotient, rounded up.
pub open spec fn piece_total(piece_length: u32, length: u64) -> int
    recommends
        piece_length > 0,
{
    (length + piece_length - 1) / (piece_length as int)
}

impl View for Metainfo {
    type V = MetainfoView;

    open spec fn view(&self) -> MetainfoView {
        MetainfoView {
            announce: self.announce@,
            piece_length: self.info.piece_length,
            pieces: self.info.pieces@.map_values(|digest: Vec<u8>| digest@),
            length: self.info.length,
            name: self.info.name@,
            info_hash: self.info_hash@,
        }
    }
}

impl MetainfoView {
    /// Whether every digest has 20 bytes.
    pub open spec fn digests_fit(self) -> bool {
        forall|index: int|
            0 <= index < self.pieces.len() ==> (#[trigger] self.pieces[index]).len() == 20
    }

    /// Whether the descriptor hangs together: pieces have a length, there is
    /// one digest of 20 bytes for each piece, and the torrent's identifier
    /// has 20 bytes.
    pub open spec fn well_formed(self) -> bool {
        &&& self.piece_length > 0
        &&& self.pieces.len() == piece_total(self.piece_length, self.length)
        &&& self.digests_fit()
        &&& self.info_hash.len() == 20
    }

    /// What is wrong with the descriptor, if anything: the first of the
    /// faults, in the order in which they are listed, that it has.
    pub open spec fn fault(self) -> Option<MetainfoParserError> {
        if self.piece_length == 0 {
            Some(MetainfoParserError::NoPieceLength)
        } else if self.pieces.len() != piece_total(self.piece_length, self.length) {
            Some(MetainfoParserError::WrongPieceCount)
        } else if !self.digests_fit() {
            Some(MetainfoParserError::WrongDigestLength)
        } else if self.info_hash.len() != 20 {
            Some(MetainfoParserError::WrongInfoHashLength)
        } else {
            None
        }
    }
}

/// A descriptor is well formed exactly if nothing is wrong with it.
pub proof fn lemma_fault_free_is_well_formed(metainfo: MetainfoView)
    ensures
        metainfo.well_formed() <==> metainfo.fault() is None,
{
}

/// The pieces of a content lie end to end and cover it: a piece that exists
/// has a byte, fits in the content, and the next one starts where it ends.
pub proof fn lemma_pieces_tile(piece_length: u32, length: u64, index: u32)
    requires
        piece_length > 0,
        index < piece_total(piece_length, length),
    ensures
        0 < piece_size(piece_length, length, index) <= piece_length,
        piece_offset(piece_length, index) + piece_size(piece_length, length, index) <= length,
        index + 1 < piece_total(piece_length, length) ==> piece_size(piece_length, length, index)
            == piece_length,
        index + 1 == piece_total(piece_length, length) ==> piece_offset(piece_length, index)
            + piece_size(piece_length, length, index) == length,
{
    let total = piece_total(piece_length, length);
    let l = length as int;
    let p = piece_length as int;
    assert(total * p <= l + p - 1 < (total + 1) * p) by (nonlinear_arith)
        requires
            total == (l + p - 1) / p,
            p > 0,
    ;
    assert((index + 1) * p <= total * p) by (nonlinear_arith)
        requires
            index + 1 <= total,
            p > 0,
    ;
    assert(index * p + p == (index + 1) * p) by (nonlinear_arith);
    assert(index * p + 2 * p == (index + 2) * p) by (nonlinear_arith);
    if index + 1 < total {
        assert((index + 2) * p <= total * p) by (nonlinear_arith)
            requires
                index + 2 <= total,
                p > 0,
        ;
    } else {
        assert((total + 1) * p == (index + 2) * p);
    }
}

impl Metainfo {
    /// Checks that the descriptor hangs together, and says what is wrong
    /// with it if it does not.
    pub fn validate(&self) -> (checked: Result<(), MetainfoParserError>)
        ensures
            checked == match self@.fault() {
                Some(fault) => Err::<(), MetainfoParserError>(fault),
                None => Ok::<(), MetainfoParserError>(()),
            },
            checked is Ok <==> self@.well_formed(),
    {
        if self.info.piece_length == 0 {
            return Err(MetainfoParserError::NoPieceLength);
        }
        if self.info.pieces.len() as u64 != self.piece_count() {
            return Err(MetainfoParserError::WrongPieceCount);
        }
        let mut index: usize = 0;
        while index < self.info.pieces.len()
            invariant
                index <= self.info.pieces@.len(),
                self@.piece_length > 0,
                self@.pieces.len() == piece_total(self@.piece_length, self@.length),
                forall|i: int| 0 <= i < index ==> (#[trigger] self@.pieces[i]).len() == 20,
            decreases self.info.pieces@.len() - index,
        {
            if self.info.pieces[index].len() != 20 {
                assert(self@.pieces[index as int].len() != 20);
                return Err(MetainfoParserError::WrongDigestLength);
            }
            index += 1;
        }
        if self.info_hash.len() != 20 {
            return Err(MetainfoParserError::WrongInfoHashLength);
        }
        Ok(())
    }

    /// How many pieces the content has. Without a piece length there are
    /// none.
    pub fn piece_count(&self) -> (count: u64)
        ensures
            self@.piece_length > 0 ==> count == piece_total(self@.piece_length, self@.length),
            self@.piece_length == 0 ==> count == 0,
    {
        if self.info.piece_length == 0 {
            return 0;
        }
        let piece_length: u64 = self.info.piece_length as u64;
        let whole: u64 = self.info.length / piece_length;
        let rest: u64 = self.info.length % piece_length;
        proof {
            let l = self.info.length as int;
            let p = piece_length as int;
            assert(l == p * (l / p) + l % p) by (nonlinear_arith)
                requires
                    p > 0,
            ;
            if rest == 0 {
                assert((l + p - 1) / p == whole) by (nonlinear_arith)
                    requires
                        p > 0,
                        l == p * whole,
                        l >= 0,
                ;
            } else {
                assert((l + p - 1) / p == whole + 1) by (nonlinear_arith)
                    requires
                        p > 0,
                        l == p * whole + rest,
                        0 < rest < p,
                ;
                assert(whole < l) by (nonlinear_arith)
                    requires
                        p >= 2,
                        l == p * whole + rest,
                        0 < rest,
                        whole >= 0,
                ;
            }
        }
        if rest == 0 {
            whole
        } else {
            whole + 1
        }
    }

    /// Where piece `index` starts in the content.
    pub fn piece_offset(&self, index: u32) -> (offset: u64)
        ensures
            offset == piece_offset(self@.piece_length, index),
    {
        assert(index * self.info.piece_length <= u64::MAX) by (nonlinear_arith)
            requires
                index <= u32::MAX,
                self.info.piece_length <= u32::MAX,
        ;
        index as u64 * self.info.piece_length as u64
    }

    /// How many bytes piece `index` has; none if the content ends before it.
    pub fn piece_size(&self, index: u32) -> (size: u32)
        ensures
            size == piece_size(self@.piece_length, self@.length, index),
    {
        let start: u64 = self.piece_offset(index);
        if start >= self.info.length {
            0
        } else if self.info.length - start < self.info.piece_length as u64 {
            (self.info.length - start) as u32
        } else {
            self.info.piece_length
        }
    }

}

impl Clone for Metainfo {
    fn clone(&self) -> (copy: Metainfo)
        ensures
            copy@ == self@,
    {
        let mut pieces: Vec<Vec<u8>> = Vec::new();
        let mut index: usize = 0;
        while index < self.info.pieces.len()
            invariant
                index <= self.info.pieces@.len(),
                pieces@.len() == index,
                forall|i: int| 0 <= i < index ==> (#[trigger] pieces@[i])@ == self.info.pieces@[i]@,
            decreases self.info.pieces@.len() - index,
        {
            let digest = &self.info.pieces[index];
            pieces.push(copy_range(digest.as_slice(), 0, digest.len()));
            assert(pieces@[index as int]@ =~= self.info.pieces@[index as int]@);
            index += 1;
        }
        let copy = Metainfo {
            announce: self.announce.clone(),
            info: Info {
                piece_length: self.info.piece_length,
                pieces,
                length: self.info.length,
                name: self.info.name.clone(),
            },
            info_hash: copy_range(self.info_hash.as_slice(), 0, self.info_hash.len()),
        };
        assert(copy@.pieces =~= self@.pieces);
        assert(copy@.info_hash =~= self@.info_hash);
        copy
    }
}

} // verus!
