//! Frames on the wire: how a message is laid out in bytes, how it is read
//! back, and the handshake that opens a session.
use crate::bytes::{
    append_bytes, bytes_equal, copy_range, lemma_u32_be_round_trip, lemma_u32_from_be_round_trip,
    read_u32_be, u32_be, u32_from_be, u32_to_be_bytes,
};
use crate::peer::types::{PeerMessage, PeerMessageId, PeerMessageView, lemma_message_id_round_trip};
use vstd::prelude::*;

verus! {

/// Why a byte string could not be read as a frame.
#[derive(Debug, PartialEq, Eq, Clone, Copy, Structural)]
pub enum FrameError {
    /// The bytes stop before the frame does.
    Incomplete,
    /// The frame names a kind that the protocol does not have.
    MalformedFrame(u8),
}

/// The bytes of the frame that carries `message`: the announced length in
/// four big-endian bytes, then the kind, then the payload. The keep-alive is
/// the bare length 0.
pub open spec fn spec_encode(message: PeerMessageView) -> Seq<u8> {
    if message.length == 0 {
        u32_be(0)
    } else {
        u32_be((message.payload.len() + 1) as u32) + seq![message.id.spec_code()] + message.payload
    }
}

/// The message at the front of `bytes` together with the number of bytes its
/// frame takes, or the reason why there is none.
pub open spec fn spec_decode(bytes: Seq<u8>) -> Result<(PeerMessageView, nat), FrameError> {
    if bytes.len() < 4 {
        Err(FrameError::Incomplete)
    } else if u32_from_be(bytes, 0) == 0 {
        Ok((PeerMessageView::keep_alive(), 4nat))
    } else if bytes.len() < 5 {
        Err(FrameError::Incomplete)
    } else {
        match PeerMessageId::spec_from_u8(bytes[4]) {
            None => Err(FrameError::MalformedFrame(bytes[4])),
            Some(id) => {
                let announced = u32_from_be(bytes, 0);
                if bytes.len() < 4 + announced {
                    Err(FrameError::Incomplete)
                } else {
                    Ok(
                        (
                            PeerMessageView {
                                id,
                                length: announced as u32,
                                payload: bytes.subrange(5, 4 + announced),
                            },
                            (4 + announced) as nat,
                        ),
                    )
                }
            },
        }
    }
}

/// A frame is four bytes longer than the length it announces.
pub proof fn lemma_frame_length(message: PeerMessageView)
    requires
        message.well_formed(),
    ensures
        spec_encode(message).len() == 4 + message.length,
{
}

/// Decoding undoes encoding: the frame of a well-formed message, followed by
/// anything, is read back as that message and as exactly its own bytes.
pub proof fn lemma_decode_encode(message: PeerMessageView, rest: Seq<u8>)
    requires
        message.well_formed(),
    ensures
        spec_decode(spec_encode(message) + rest) == Ok::<(PeerMessageView, nat), FrameError>(
            (message, spec_encode(message).len()),
        ),
{
    let frame = spec_encode(message);
    let bytes = frame + rest;
    if message.length == 0 {
        lemma_u32_be_round_trip(0, Seq::<u8>::empty(), rest);
        assert(Seq::<u8>::empty() + u32_be(0) + rest =~= bytes);
    } else {
        let announced = (message.payload.len() + 1) as u32;
        let body = seq![message.id.spec_code()] + message.payload;
        lemma_u32_be_round_trip(announced, Seq::<u8>::empty(), body + rest);
        assert(Seq::<u8>::empty() + u32_be(announced) + (body + rest) =~= bytes);
        lemma_message_id_round_trip(message.id);
        assert(bytes[4] == message.id.spec_code());
        assert(bytes.subrange(5, 4 + announced) =~= message.payload);
    }
}

/// Encoding undoes decoding: the bytes that a frame was read from are the
/// frame of the message that was read.
pub proof fn lemma_encode_decode(bytes: Seq<u8>)
    requires
        spec_decode(bytes) is Ok,
    ensures
        ({
            let (message, used) = spec_decode(bytes)->Ok_0;
            &&& message.well_formed()
            &&& used <= bytes.len()
            &&& spec_encode(message) == bytes.subrange(0, used as int)
        }),
{
    let (message, used) = spec_decode(bytes)->Ok_0;
    lemma_u32_from_be_round_trip(bytes, 0);
    if u32_from_be(bytes, 0) == 0 {
        assert(spec_encode(message) =~= bytes.subrange(0, 4));
    } else {
        assert(spec_encode(message) =~= bytes.subrange(0, used as int));
    }
}

impl PeerMessage {
    /// Lays the message out as a frame.
    pub fn encode(&self) -> (frame: Vec<u8>)
        requires
            self@.payload.len() < u32::MAX,
        ensures
            frame@ == spec_encode(self@),
    {
        if self.length == 0 {
            return u32_to_be_bytes(0);
        }
        let announced: u32 = (self.payload.len() + 1) as u32;
        let mut frame: Vec<u8> = u32_to_be_bytes(announced);
        frame.push(self.id.code());
        append_bytes(&mut frame, self.payload.as_slice());
        assert(frame@ =~= spec_encode(self@));
        frame
    }

    /// Reads the frame at the front of `bytes`. On success the message comes
    /// with the number of bytes its frame took; what follows them is left
    /// alone. The payload is copied out as it stands, whatever the kind.
    pub fn decode(bytes: &[u8]) -> (outcome: Result<(PeerMessage, usize), FrameError>)
        ensures
            match outcome {
                Ok((message, used)) => spec_decode(bytes@) == Ok::<
                    (PeerMessageView, nat),
                    FrameError,
                >((message@, used as nat)),
                Err(reason) => spec_decode(bytes@) == Err::<(PeerMessageView, nat), FrameError>(
                    reason,
                ),
            },
    {
        if bytes.len() < 4 {
            return Err(FrameError::Incomplete);
        }
        let announced: u32 = read_u32_be(bytes, 0);
        if announced == 0 {
            return Ok((PeerMessage::keep_alive(), 4));
        }
        if bytes.len() < 5 {
            return Err(FrameError::Incomplete);
        }
        let id = match PeerMessageId::from_u8(bytes[4]) {
            Ok(id) => id,
            Err(code) => {
                return Err(FrameError::MalformedFrame(code));
            },
        };
        if bytes.len() - 4 < announced as usize {
            return Err(FrameError::Incomplete);
        }
        let end: usize = 4 + announced as usize;
        let payload = copy_range(bytes, 5, end);
        Ok((PeerMessage { id, length: announced, payload }, end))
    }
}

/// The length of a handshake frame.
pub const HANDSHAKE_LENGTH: usize = 68;

/// The length of the protocol's name, which opens a handshake frame.
pub const PSTRLEN: u8 = 19;

/// The protocol's name, "BitTorrent protocol", in ASCII.
pub open spec fn protocol_name() -> Seq<u8> {
    seq![
        66u8, 105, 116, 84, 111, 114, 114, 101, 110, 116, 32, 112, 114, 111, 116, 111, 99, 111,
        108,
    ]
}

/// The handshake frame: the length of the protocol's name, the name, eight
/// reserved zero bytes, the torrent's identifier and the sender's.
pub open spec fn handshake_frame(info_hash: Seq<u8>, peer_id: Seq<u8>) -> Seq<u8> {
    seq![19u8] + protocol_name() + Seq::new(8, |i: int| 0u8) + info_hash + peer_id
}

/// Whether `response` is a handshake frame for the torrent `info_hash`. The
/// reserved bytes may hold anything.
pub open spec fn handshake_accepts(response: Seq<u8>, info_hash: Seq<u8>) -> bool {
    &&& response.len() == 68
    &&& response[0] == 19
    &&& response.subrange(1, 20) == protocol_name()
    &&& response.subrange(28, 48) == info_hash
}

/// Why a handshake response was turned down.
#[derive(Debug, PartialEq, Eq, Clone, Copy, Structural)]
pub enum HandshakeError {
    /// The response is not a handshake frame of this protocol.
    Malformed,
    /// The response is for another torrent.
    InfoHashMismatch,
}

/// Whether `response` has the length and the opening of a handshake frame.
pub open spec fn handshake_shaped(response: Seq<u8>) -> bool {
    &&& response.len() == 68
    &&& response[0] == 19
    &&& response.subrange(1, 20) == protocol_name()
}

fn protocol_name_bytes() -> (name: Vec<u8>)
    ensures
        name@ == protocol_name(),
{
    let mut name: Vec<u8> = Vec::new();
    name.push(66);
    name.push(105);
    name.push(116);
    name.push(84);
    name.push(111);
    name.push(114);
    name.push(114);
    name.push(101);
    name.push(110);
    name.push(116);
    name.push(32);
    name.push(112);
    name.push(114);
    name.push(111);
    name.push(116);
    name.push(111);
    name.push(99);
    name.push(111);
    name.push(108);
    assert(name@ =~= protocol_name());
    name
}

/// Builds the handshake frame that announces `peer_id` for the torrent
/// `info_hash`. With two identifiers of 20 bytes the frame has 68.
pub fn create_handshake_message(info_hash: &[u8], peer_id: &[u8]) -> (frame: Vec<u8>)
    ensures
        frame@ == handshake_frame(info_hash@, peer_id@),
        frame@.len() == 28 + info_hash@.len() + peer_id@.len(),
{
    let mut frame: Vec<u8> = Vec::new();
    frame.push(PSTRLEN);
    append_bytes(&mut frame, protocol_name_bytes().as_slice());
    let mut reserved: usize = 0;
    while reserved < 8
        invariant
            reserved <= 8,
            frame@ == seq![19u8] + protocol_name() + Seq::new(reserved as nat, |i: int| 0u8),
        decreases 8 - reserved,
    {
        frame.push(0);
        reserved += 1;
        assert(frame@ =~= seq![19u8] + protocol_name() + Seq::new(reserved as nat, |i: int| 0u8));
    }
    append_bytes(&mut frame, info_hash);
    append_bytes(&mut frame, peer_id);
    frame
}

/// Checks the handshake frame a peer answered with. A frame of this protocol
/// that names `info_hash` is accepted, and the identifier the peer announced
/// is handed back; a frame for another torrent, or bytes that are no
/// handshake frame, are refused.
pub fn check_handshake_response(response: &[u8], info_hash: &[u8]) -> (outcome: Result<
    Vec<u8>,
    HandshakeError,
>)
    ensures
        match outcome {
            Ok(peer_id) => handshake_accepts(response@, info_hash@) && peer_id@
                == response@.subrange(48, 68),
            Err(HandshakeError::Malformed) => !handshake_shaped(response@),
            Err(HandshakeError::InfoHashMismatch) => handshake_shaped(response@)
                && response@.subrange(28, 48) != info_hash@,
        },
{
    if response.len() != HANDSHAKE_LENGTH || response[0] != PSTRLEN {
        return Err(HandshakeError::Malformed);
    }
    let name = copy_range(response, 1, 20);
    if !bytes_equal(name.as_slice(), protocol_name_bytes().as_slice()) {
        return Err(HandshakeError::Malformed);
    }
    let echoed = copy_range(response, 28, 48);
    if !bytes_equal(echoed.as_slice(), info_hash) {
        return Err(HandshakeError::InfoHashMismatch);
    }
    Ok(copy_range(response, 48, 68))
}

/// A peer that answers with the frame built for the same torrent is accepted,
/// and one that answers for another torrent is not.
pub proof fn lemma_handshake_echo(info_hash: Seq<u8>, other_hash: Seq<u8>, peer_id: Seq<u8>)
    requires
        info_hash.len() == 20,
        other_hash.len() == 20,
        peer_id.len() == 20,
    ensures
        handshake_shaped(handshake_frame(other_hash, peer_id)),
        handshake_accepts(handshake_frame(other_hash, peer_id), info_hash) <==> other_hash
            == info_hash,
{
    let frame = handshake_frame(other_hash, peer_id);
    assert(frame.subrange(1, 20) =~= protocol_name());
    assert(frame.subrange(28, 48) =~= other_hash);
}

} // verus!
