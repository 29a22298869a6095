use crate::bytes::{append_bytes, copy_range, u32_be, u32_to_be_bytes};
use vstd::prelude::*;
use vstd::slice::slice_to_vec;

verus! {

/// Whether bit `offset` of `byte` is set, counting from the most significant
/// bit: offset 0 is the bit of weight 128.
pub open spec fn bit_is_set(byte: u8, offset: int) -> bool
    recommends
        0 <= offset < 8,
{
    (byte >> ((7 - offset) as u8)) & 1u8 == 1u8
}

/// Whether the packed bit vector `bytes` claims piece `index`. Indices past
/// the end of the vector are never claimed.
pub open spec fn bitfield_has(bytes: Seq<u8>, index: int) -> bool {
    0 <= index < 8 * bytes.len() && bit_is_set(bytes[index / 8], index % 8)
}

/// The byte `byte` with bit `offset` switched on.
pub open spec fn byte_with_bit(byte: u8, offset: int) -> u8
    recommends
        0 <= offset < 8,
{
    byte | (1u8 << ((7 - offset) as u8))
}

/// The packed bit vector `bytes` with the bit of piece `index` switched on.
/// The vector never grows: an index past its end changes nothing.
pub open spec fn bitfield_with(bytes: Seq<u8>, index: int) -> Seq<u8> {
    if 0 <= index / 8 < bytes.len() {
        bytes.update(index / 8, byte_with_bit(bytes[index / 8], index % 8))
    } else {
        bytes
    }
}

/// Switching a bit on makes the vector claim that piece, if the piece is
/// within the vector, and changes no other claim.
pub proof fn lemma_bitfield_with(bytes: Seq<u8>, index: int, other: int)
    requires
        0 <= index,
    ensures
        bitfield_has(bitfield_with(bytes, index), other) == (bitfield_has(bytes, other) || (other
            == index && index < 8 * bytes.len())),
{
    if 0 <= index / 8 < bytes.len() && 0 <= other < 8 * bytes.len() {
        let byte = bytes[index / 8];
        let shift = (7 - index % 8) as u8;
        if other / 8 == index / 8 {
            let probe = (7 - other % 8) as u8;
            assert(((byte | (1u8 << shift)) >> probe) & 1u8 == 1u8 <==> ((byte >> probe) & 1u8
                == 1u8 || probe == shift)) by (bit_vector)
                requires
                    shift < 8,
                    probe < 8,
            ;
        }
    }
}

/// The pieces a peer claims to have, one bit per piece, packed eight to a
/// byte with the lowest index in the most significant bit.
pub struct Bitfield(Vec<u8>);

impl View for Bitfield {
    type V = Seq<u8>;

    closed spec fn view(&self) -> Seq<u8> {
        self.0@
    }
}

impl Clone for Bitfield {
    fn clone(&self) -> (copy: Self)
        ensures
            copy@ == self@,
    {
        Bitfield(copy_range(self.0.as_slice(), 0, self.0.len()))
    }
}

impl Bitfield {
    /// The empty bitfield, which claims nothing.
    pub fn new() -> (bitfield: Self)
        ensures
            bitfield@ == Seq::<u8>::empty(),
    {
        Bitfield(Vec::new())
    }

    /// Whether the bitfield holds at least one byte.
    pub fn non_empty(&self) -> (answer: bool)
        ensures
            answer == (self@.len() > 0),
    {
        self.0.len() > 0
    }

    /// Replaces the packed bits by a copy of `bitfield`.
    pub fn set_bitfield(&mut self, bitfield: &[u8])
        ensures
            final(self)@ == bitfield@,
    {
        self.0 = slice_to_vec(bitfield);
    }

    /// Whether the peer claims piece `index`.
    pub fn has_piece(&self, index: usize) -> (answer: bool)
        ensures
            answer == bitfield_has(self@, index as int),
    {
        let byte_index: usize = index / 8;
        let offset: usize = index % 8;
        if byte_index >= self.0.len() {
            return false;
        }
        let shift: u8 = (7 - offset) as u8;
        let byte: u8 = self.0[byte_index];
        assert(((byte >> shift) & 1u8 != 0) == ((byte >> shift) & 1u8 == 1u8)) by (bit_vector);
        (byte >> shift) & 1u8 != 0
    }

    /// Records that the peer has piece `index`. An index past the end of the
    /// packed vector is ignored: the vector never grows.
    pub fn set_piece(&mut self, index: usize)
        ensures
            final(self)@ == bitfield_with(old(self)@, index as int),
    {
        let byte_index: usize = index / 8;
        let offset: usize = index % 8;
        if byte_index >= self.0.len() {
            return ;
        }
        let shift: u8 = (7 - offset) as u8;
        let byte: u8 = self.0[byte_index];
        self.0.set(byte_index, byte | (1u8 << shift));
    }
}

/// A peer as a tracker announces it: where to reach it and the identifier it
/// goes by.
#[derive(Debug, PartialEq, Clone)]
pub struct Peer {
    pub ip: String,
    pub port: u16,
    pub peer_id: Vec<u8>,
}

/// The kind of a wire message, in the order of the protocol's numbering.
#[derive(Debug, PartialEq, Eq, Clone, Copy, Structural)]
pub enum PeerMessageId {
    Choke,
    Unchoke,
    Interested,
    NotInterested,
    Have,
    Bitfield,
    Request,
    Piece,
    Cancel,
    Port,
}

impl PeerMessageId {
    /// The number that stands for this kind on the wire.
    pub open spec fn spec_code(self) -> u8 {
        match self {
            PeerMessageId::Choke => 0,
            PeerMessageId::Unchoke => 1,
            PeerMessageId::Interested => 2,
            PeerMessageId::NotInterested => 3,
            PeerMessageId::Have => 4,
            PeerMessageId::Bitfield => 5,
            PeerMessageId::Request => 6,
            PeerMessageId::Piece => 7,
            PeerMessageId::Cancel => 8,
            PeerMessageId::Port => 9,
        }
    }

    /// The kind that `code` stands for, if it stands for one.
    pub open spec fn spec_from_u8(code: u8) -> Option<PeerMessageId> {
        if code == 0 {
            Some(PeerMessageId::Choke)
        } else if code == 1 {
            Some(PeerMessageId::Unchoke)
        } else if code == 2 {
            Some(PeerMessageId::Interested)
        } else if code == 3 {
            Some(PeerMessageId::NotInterested)
        } else if code == 4 {
            Some(PeerMessageId::Have)
        } else if code == 5 {
            Some(PeerMessageId::Bitfield)
        } else if code == 6 {
            Some(PeerMessageId::Request)
        } else if code == 7 {
            Some(PeerMessageId::Piece)
        } else if code == 8 {
            Some(PeerMessageId::Cancel)
        } else if code == 9 {
            Some(PeerMessageId::Port)
        } else {
            None
        }
    }

    /// The number that stands for this kind on the wire.
    #[verifier::when_used_as_spec(spec_code)]
    pub fn code(self) -> (code: u8)
        ensures
            code == self.spec_code(),
            code <= 9,
    {
        match self {
            PeerMessageId::Choke => 0,
            PeerMessageId::Unchoke => 1,
            PeerMessageId::Interested => 2,
            PeerMessageId::NotInterested => 3,
            PeerMessageId::Have => 4,
            PeerMessageId::Bitfield => 5,
            PeerMessageId::Request => 6,
            PeerMessageId::Piece => 7,
            PeerMessageId::Cancel => 8,
            PeerMessageId::Port => 9,
        }
    }

    /// Reads a kind from its wire number. The numbers 0 to 9 are kinds; any
    /// other number is refused and handed back.
    pub fn from_u8(id: u8) -> (kind: Result<PeerMessageId, u8>)
        ensures
            kind == match PeerMessageId::spec_from_u8(id) {
                Some(known) => Ok::<PeerMessageId, u8>(known),
                None => Err::<PeerMessageId, u8>(id),
            },
            kind is Ok <==> id <= 9,
    {
        match id {
            0 => Ok(PeerMessageId::Choke),
            1 => Ok(PeerMessageId::Unchoke),
            2 => Ok(PeerMessageId::Interested),
            3 => Ok(PeerMessageId::NotInterested),
            4 => Ok(PeerMessageId::Have),
            5 => Ok(PeerMessageId::Bitfield),
            6 => Ok(PeerMessageId::Request),
            7 => Ok(PeerMessageId::Piece),
            8 => Ok(PeerMessageId::Cancel),
            9 => Ok(PeerMessageId::Port),
            _ => Err(id),
        }
    }
}

/// Every kind is read back from its own wire number.
pub proof fn lemma_message_id_round_trip(id: PeerMessageId)
    ensures
        id.spec_code() <= 9,
        PeerMessageId::spec_from_u8(id.spec_code()) == Some(id),
{
}

/// A wire message: its kind, the length the frame announces (kind byte plus
/// payload) and the payload. A keep-alive has length 0, no payload, and the
/// kind `Choke` as a filler.
#[derive(Debug)]
pub struct PeerMessage {
    pub id: PeerMessageId,
    pub length: u32,
    pub payload: Vec<u8>,
}

/// What a wire message is, as plain values.
pub struct PeerMessageView {
    pub id: PeerMessageId,
    pub length: u32,
    pub payload: Seq<u8>,
}

impl View for PeerMessage {
    type V = PeerMessageView;

    open spec fn view(&self) -> PeerMessageView {
        PeerMessageView { id: self.id, length: self.length, payload: self.payload@ }
    }
}

impl PeerMessageView {
    /// The keep-alive message.
    pub open spec fn keep_alive() -> PeerMessageView {
        PeerMessageView { id: PeerMessageId::Choke, length: 0, payload: Seq::<u8>::empty() }
    }

    /// The message of kind `id` that carries `payload`, with the length a
    /// frame announces for it.
    pub open spec fn of(id: PeerMessageId, payload: Seq<u8>) -> PeerMessageView
        recommends
            payload.len() < u32::MAX,
    {
        PeerMessageView { id, length: (payload.len() + 1) as u32, payload }
    }

    /// Whether the announced length agrees with the payload: a message is
    /// either the keep-alive or announces its payload plus the kind byte.
    pub open spec fn well_formed(self) -> bool {
        if self.length == 0 {
            self == PeerMessageView::keep_alive()
        } else {
            self.length == self.payload.len() + 1
        }
    }
}

impl PeerMessage {
    /// Tells the peer that it is no longer choked.
    pub fn unchoke() -> (message: PeerMessage)
        ensures
            message@ == PeerMessageView::of(PeerMessageId::Unchoke, Seq::<u8>::empty()),
            message@.length == 1,
    {
        PeerMessage { id: PeerMessageId::Unchoke, length: 1, payload: Vec::new() }
    }

    /// Tells the peer that we want what it has.
    pub fn interested() -> (message: PeerMessage)
        ensures
            message@ == PeerMessageView::of(PeerMessageId::Interested, Seq::<u8>::empty()),
            message@.length == 1,
    {
        PeerMessage { id: PeerMessageId::Interested, length: 1, payload: Vec::new() }
    }

    /// The four big-endian bytes of `num`.
    pub fn u32_to_vec_be(num: u32) -> (bytes: Vec<u8>)
        ensures
            bytes@ == u32_be(num),
    {
        u32_to_be_bytes(num)
    }

    /// Tells the peer that we now have piece `index`.
    pub fn have(index: u32) -> (message: PeerMessage)
        ensures
            message@ == PeerMessageView::of(PeerMessageId::Have, u32_be(index)),
            message@.length == 5,
    {
        PeerMessage { id: PeerMessageId::Have, length: 5, payload: Self::u32_to_vec_be(index) }
    }

    /// Asks for `length` bytes of piece `index`, starting `begin` bytes into
    /// the piece.
    pub fn request(index: u32, begin: u32, length: u32) -> (message: PeerMessage)
        ensures
            message@ == PeerMessageView::of(
                PeerMessageId::Request,
                u32_be(index) + u32_be(begin) + u32_be(length),
            ),
            message@.length == 13,
    {
        let mut payload: Vec<u8> = Vec::new();
        append_bytes(&mut payload, Self::u32_to_vec_be(index).as_slice());
        append_bytes(&mut payload, Self::u32_to_vec_be(begin).as_slice());
        append_bytes(&mut payload, Self::u32_to_vec_be(length).as_slice());
        assert(payload@ =~= u32_be(index) + u32_be(begin) + u32_be(length));
        PeerMessage { id: PeerMessageId::Request, length: 13, payload }
    }

    /// Carries `block`, the bytes of piece `piece_index` that start `offset`
    /// bytes into the piece.
    pub fn piece(piece_index: u32, offset: u32, block: Vec<u8>) -> (message: PeerMessage)
        requires
            block@.len() + 9 <= u32::MAX,
        ensures
            message@ == PeerMessageView::of(
                PeerMessageId::Piece,
                u32_be(piece_index) + u32_be(offset) + block@,
            ),
            message@.length == block@.len() + 9,
    {
        let mut payload: Vec<u8> = Vec::new();
        append_bytes(&mut payload, Self::u32_to_vec_be(piece_index).as_slice());
        append_bytes(&mut payload, Self::u32_to_vec_be(offset).as_slice());
        append_bytes(&mut payload, block.as_slice());
        assert(payload@ =~= u32_be(piece_index) + u32_be(offset) + block@);
        let length: u32 = (payload.len() + 1) as u32;
        PeerMessage { id: PeerMessageId::Piece, length, payload }
    }

    /// The message that only keeps the connection open.
    pub fn keep_alive() -> (message: PeerMessage)
        ensures
            message@ == PeerMessageView::keep_alive(),
    {
        PeerMessage { id: PeerMessageId::Choke, length: 0, payload: Vec::new() }
    }
}

} // verus!
